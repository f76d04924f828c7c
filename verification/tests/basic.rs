use sha1::Digest;

use stacked_portrayals::mappings::cache::{
    cache_rel_path, load_mappings, validate_mappings, HashCode, MappingDownload,
};
use stacked_portrayals::mappings::graph::plan_conversion;
use stacked_portrayals::mappings::raw::{convert_mappings, RawClassMapping, RawMethodMapping};
use stacked_portrayals::mappings::{
    build_mapper, ClassMapper, Descriptor, EitherMapper, MappingType, MethodMapper, Type,
};
use stacked_portrayals::mojang_api::{find_version, Version, VersionManifest};
use stacked_portrayals::names::NamesType;
use stacked_portrayals::stacktrace::parse_stacktrace;
use stacked_portrayals::ErrorKind;

fn void_descriptor() -> Descriptor {
    Descriptor { params: Vec::new(), return_type: Type::Void }
}

fn simple_mapper(
    from: NamesType,
    to: NamesType,
    classes: Vec<(&str, &str, Vec<(&str, &str, Descriptor)>)>,
    flip: bool,
) -> stacked_portrayals::mappings::BaseMapper {
    let raws = classes
        .into_iter()
        .map(|(a, b, methods)| RawClassMapping {
            mapping: (a.to_string(), b.to_string()),
            methods: methods
                .into_iter()
                .map(|(ma, mb, d)| RawMethodMapping {
                    descriptor: d,
                    mapping: (ma.to_string(), mb.to_string()),
                })
                .collect(),
        })
        .collect();
    convert_mappings(from, to, "1.20".to_string(), raws, flip)
}

#[test]
fn identity_trace_round_trip() {
    let input = "java.lang.NullPointerException: oops\n\tat a.b.C.d(C.java:42)\n";
    let st = parse_stacktrace(input).unwrap();
    let mapper = EitherMapper::Base(simple_mapper(
        NamesType::Obfuscated,
        NamesType::Mojang,
        vec![("a.b.C", "a.b.C", vec![])],
        false,
    ));
    let mapped = st.map_self(&mapper);
    assert_eq!(mapped.to_display_string(), input);
}

#[test]
fn full_remap_of_trace() {
    let input = "a.b.C: e\n\tat a.b.C.d(C.java:7)\n";
    let st = parse_stacktrace(input).unwrap();
    let mapper = EitherMapper::Base(simple_mapper(
        NamesType::Obfuscated,
        NamesType::Mojang,
        vec![("a.b.C", "x.y.Z", vec![("d", "m", void_descriptor())])],
        false,
    ));
    let mapped = st.map_self(&mapper);
    assert_eq!(mapped.to_display_string(), "x.y.Z: e\n\tat x.y.Z.m(Z.java:7)\n");
}

#[test]
fn ambiguous_unscoped_method_is_kept() {
    let input = "a.b.C: e\n\tat Unknown.d(Unknown.java)\n";
    let st = parse_stacktrace(input).unwrap();
    let mapper = EitherMapper::Base(simple_mapper(
        NamesType::Obfuscated,
        NamesType::Mojang,
        vec![
            ("p.A", "q.X", vec![("d", "m1", void_descriptor())]),
            ("p.B", "q.Y", vec![("d", "m2", void_descriptor())]),
        ],
        false,
    ));
    let mapped = st.map_self(&mapper);
    assert_eq!(mapped.to_display_string(), "a.b.C: e\n\tat Unknown.d(Unknown.java)\n");
}

#[test]
fn unique_unscoped_method_is_used() {
    let mapper = simple_mapper(
        NamesType::Obfuscated,
        NamesType::Mojang,
        vec![("p.A", "q.X", vec![("d", "m1", void_descriptor())])],
        false,
    );
    let r = mapper.map_method("Unknown", "d", None);
    assert_eq!(r.len(), 1);
    assert_eq!(r[0].0, "q.X");
    assert_eq!(r[0].1.name, "m1");
}

#[test]
fn multiple_candidates_join_with_slash() {
    let d1 = void_descriptor();
    let d2 = Descriptor { params: vec![Type::Int], return_type: Type::Void };
    let input = "a.A: e\n\tat a.A.d(A.java)\n";
    let st = parse_stacktrace(input).unwrap();
    let mapper = EitherMapper::Base(simple_mapper(
        NamesType::Obfuscated,
        NamesType::Mojang,
        vec![("a.A", "b.B", vec![("d", "m1", d1), ("d", "m2", d2)])],
        false,
    ));
    let mapped = st.map_self(&mapper);
    assert_eq!(mapped.to_display_string(), "b.B: e\n\tat b.B.m1/m2(B.java)\n");
}

#[test]
fn trace_with_module_and_decoration() {
    let input = "java.lang.Error: x\n\tat mod1/a.b.C.d(C.java:3) ~[client.jar]\n";
    let st = parse_stacktrace(input).unwrap();
    assert_eq!(st.frames.len(), 1);
    assert_eq!(st.frames[0].module.as_deref(), Some("mod1"));
    assert_eq!(st.frames[0].class, "a.b.C");
    assert_eq!(st.frames[0].method, "d");
    assert_eq!(st.frames[0].file, "C.java");
    assert_eq!(st.frames[0].line, Some(3));
    // The decoration is consumed; the canonical printing drops it.
    assert_eq!(st.to_display_string(), "java.lang.Error: x\n\tat mod1/a.b.C.d(C.java:3)\n");
}

#[test]
fn bad_trace_collects_an_error() {
    let r = parse_stacktrace("no header here");
    let e = r.err().unwrap();
    assert!(!e.errors.is_empty());
    assert_eq!(e.source, "no header here");
}

#[test]
fn blank_line_inside_trace_is_an_error() {
    let r = parse_stacktrace("a.A: m\n\n\tat a.A.d(A.java)\n");
    assert!(r.is_err());
}

#[test]
fn class_round_trip_between_directions() {
    let forward = simple_mapper(
        NamesType::Mojang,
        NamesType::Obfuscated,
        vec![("a.b.C", "x.y.Z", vec![])],
        false,
    );
    let inverse = simple_mapper(
        NamesType::Mojang,
        NamesType::Obfuscated,
        vec![("a.b.C", "x.y.Z", vec![])],
        true,
    );
    let there = forward.map_class("a.b.C").unwrap();
    assert_eq!(there, "x.y.Z");
    assert_eq!(inverse.map_class(&there).unwrap(), "a.b.C");
    assert_eq!(forward.from_names(), NamesType::Mojang);
    assert_eq!(inverse.from_names(), NamesType::Obfuscated);
}

#[test]
fn descriptor_classes_are_remapped_in_values() {
    let d = Descriptor {
        params: vec![Type::Object("a.b.C".to_string())],
        return_type: Type::Object("a.b.C".to_string()),
    };
    let mapper = simple_mapper(
        NamesType::Obfuscated,
        NamesType::Mojang,
        vec![("a.b.C", "x.y.Z", vec![("d", "m", d)])],
        false,
    );
    let r = mapper.map_method("a.b.C", "d", None);
    assert_eq!(r.len(), 1);
    let mapped_desc = &r[0].1.descriptor;
    assert_eq!(mapped_desc.params[0], Type::Object("x.y.Z".to_string()));
    assert_eq!(mapped_desc.return_type, Type::Object("x.y.Z".to_string()));
}

#[test]
fn from_source_name_reads_types() {
    assert_eq!(Type::from_source_name("void".to_string()), Type::Void);
    assert_eq!(Type::from_source_name("int".to_string()), Type::Int);
    assert_eq!(
        Type::from_source_name("byte[][]".to_string()),
        Type::Array(Box::new(Type::Array(Box::new(Type::Byte))))
    );
    assert_eq!(
        Type::from_source_name("java.lang.String".to_string()),
        Type::Object("java.lang.String".to_string())
    );
}

#[test]
fn names_type_short_forms() {
    assert_eq!(NamesType::from_str("obf").unwrap(), NamesType::Obfuscated);
    assert_eq!(NamesType::from_str("mojang").unwrap(), NamesType::Mojang);
    assert_eq!(NamesType::from_str("fabric").unwrap(), NamesType::FabricIntermediary);
    assert!(NamesType::from_str("other").is_err());
    assert_eq!(NamesType::Mojang.short_name(), "mojang");
}

fn sha1_hex(bytes: &[u8]) -> String {
    let digest = <sha1::Sha1 as Digest>::digest(bytes);
    digest.iter().map(|b| format!("{:02x}", b)).collect()
}

#[test]
fn hash_integrity_serves_bytes_back() {
    let body = b"mapping file body".to_vec();
    let dl = MappingDownload {
        kind: "mojang".to_string(),
        source: "https://example.invalid/m.txt".to_string(),
        hash: HashCode::Sha1(sha1_hex(&body)),
        size: Some(body.len() as u64),
    };
    let served = load_mappings(&dl, &vec![body.clone()]).unwrap();
    assert_eq!(served, body);
}

#[test]
fn upper_case_digest_still_validates() {
    let body = b"abc".to_vec();
    let dl = MappingDownload {
        kind: "mojang".to_string(),
        source: "s".to_string(),
        hash: HashCode::Sha1(sha1_hex(&body).to_uppercase()),
        size: None,
    };
    assert!(validate_mappings(&dl, &body).is_ok());
}

#[test]
fn cache_self_heals_on_retry() {
    let good = b"good content".to_vec();
    let bad = b"torn write".to_vec();
    let dl = MappingDownload {
        kind: "fabric_intermediary".to_string(),
        source: "s".to_string(),
        hash: HashCode::Sha1(sha1_hex(&good)),
        size: Some(good.len() as u64),
    };
    let served = load_mappings(&dl, &vec![bad, good.clone()]).unwrap();
    assert_eq!(served, good);
}

#[test]
fn persistent_corruption_gives_up_after_five() {
    let good = b"good content".to_vec();
    let bad = b"torn write".to_vec();
    let dl = MappingDownload {
        kind: "mojang".to_string(),
        source: "s".to_string(),
        hash: HashCode::Sha1(sha1_hex(&good)),
        size: None,
    };
    // The good copy stands sixth in line: one try too late.
    let attempts = vec![
        bad.clone(),
        bad.clone(),
        bad.clone(),
        bad.clone(),
        bad.clone(),
        good,
    ];
    let e = load_mappings(&dl, &attempts).err().unwrap();
    assert_eq!(e.kind, ErrorKind::IntegrityFailure);
}

#[test]
fn size_mismatch_is_integrity_failure() {
    let body = b"abc".to_vec();
    let dl = MappingDownload {
        kind: "mojang".to_string(),
        source: "s".to_string(),
        hash: HashCode::Sha1(sha1_hex(&body)),
        size: Some(999),
    };
    let e = validate_mappings(&dl, &body).err().unwrap();
    assert_eq!(e.kind, ErrorKind::IntegrityFailure);
}

#[test]
fn cache_path_is_content_addressed() {
    let dl = MappingDownload {
        kind: "mojang".to_string(),
        source: "s".to_string(),
        hash: HashCode::Sha1("AB12".to_string()),
        size: None,
    };
    assert_eq!(cache_rel_path(&dl), "mojang/sha1.AB12.mapsrc");
    assert_eq!(dl.hash.name(), "sha1");
    assert_eq!(dl.hash.value(), "AB12");
}

#[test]
fn planning_uses_the_obfuscated_hub() {
    assert_eq!(
        plan_conversion(NamesType::Mojang, NamesType::FabricIntermediary).unwrap(),
        vec![MappingType::MojangToObf, MappingType::ObfToFabricIntermediary]
    );
    assert_eq!(
        plan_conversion(NamesType::Obfuscated, NamesType::Mojang).unwrap(),
        vec![MappingType::ObfToMojang]
    );
    assert_eq!(
        plan_conversion(NamesType::FabricIntermediary, NamesType::Obfuscated).unwrap(),
        vec![MappingType::FabricIntermediaryToObf]
    );
    let e = plan_conversion(NamesType::Mojang, NamesType::Mojang).err().unwrap();
    assert_eq!(e.kind, ErrorKind::UnsupportedConversion);
}

#[test]
fn composite_keeps_adjacency_and_endpoints() {
    let first = simple_mapper(
        NamesType::Mojang,
        NamesType::Obfuscated,
        vec![("net.minecraft.Thing", "zz", vec![])],
        false,
    );
    let second = simple_mapper(
        NamesType::Obfuscated,
        NamesType::FabricIntermediary,
        vec![("zz", "net.fabric.class_1", vec![])],
        false,
    );
    let mapper = build_mapper(
        NamesType::Mojang,
        NamesType::FabricIntermediary,
        vec![first, second],
    )
    .unwrap();
    match &mapper {
        EitherMapper::Multi(m) => {
            assert_eq!(m.mappers().len(), 2);
            assert_eq!(m.mappers()[0].from_names(), NamesType::Mojang);
            assert_eq!(m.mappers()[0].to_names(), NamesType::Obfuscated);
            assert_eq!(m.mappers()[1].from_names(), NamesType::Obfuscated);
            assert_eq!(m.mappers()[1].to_names(), NamesType::FabricIntermediary);
        }
        EitherMapper::Base(_) => panic!("expected a composite"),
    }
    assert_eq!(mapper.map_class("net.minecraft.Thing").unwrap(), "net.fabric.class_1");
}

#[test]
fn mismatched_chain_is_rejected() {
    let first = simple_mapper(NamesType::Mojang, NamesType::Obfuscated, vec![], false);
    let second = simple_mapper(NamesType::Mojang, NamesType::Obfuscated, vec![], false);
    let e = build_mapper(NamesType::Mojang, NamesType::Obfuscated, vec![first, second])
        .err()
        .unwrap();
    assert_eq!(e.kind, ErrorKind::InternalInvariant);
}

#[test]
fn version_lookup_in_manifest() {
    let manifest = VersionManifest {
        versions: vec![
            Version { id: "1.20.1".to_string(), url: "https://example.invalid/a".to_string() },
            Version { id: "1.19".to_string(), url: "https://example.invalid/b".to_string() },
        ],
    };
    let v = find_version(manifest, "1.19").unwrap();
    assert_eq!(v.url, "https://example.invalid/b");
    let manifest = VersionManifest { versions: vec![] };
    let e = find_version(manifest, "1.19").err().unwrap();
    assert_eq!(e.kind, ErrorKind::InvalidArgument);
}

#[test]
fn integrity_errors_describe_the_mismatch() {
    let body = b"abc".to_vec();
    let dl = MappingDownload {
        kind: "mojang".to_string(),
        source: "s".to_string(),
        hash: HashCode::Sha1(sha1_hex(&body)),
        size: Some(999),
    };
    let e = validate_mappings(&dl, &body).err().unwrap();
    assert_eq!(e.context, vec!["mappings content was 3 bytes, expected 999".to_string()]);

    let dl = MappingDownload {
        kind: "mojang".to_string(),
        source: "s".to_string(),
        hash: HashCode::Sha1("00".to_string()),
        size: None,
    };
    let e = validate_mappings(&dl, &body).err().unwrap();
    assert_eq!(
        e.context,
        vec![format!("mappings content had hash {}, expected 00", sha1_hex(&body))]
    );
}

#[test]
fn failed_load_reports_every_attempt() {
    let good = b"good content".to_vec();
    let bad = b"torn write".to_vec();
    let dl = MappingDownload {
        kind: "mojang".to_string(),
        source: "https://example.invalid/m.txt".to_string(),
        hash: HashCode::Sha1(sha1_hex(&good)),
        size: None,
    };
    let e = load_mappings(&dl, &vec![bad.clone(), bad]).err().unwrap();
    assert_eq!(e.context.len(), 3);
    assert_eq!(
        e.context[0],
        "failed to download and validate mappings from https://example.invalid/m.txt"
    );
    assert!(e.context[1].starts_with("mappings content had hash "));
    assert_eq!(e.context[1], e.context[2]);
}

#[test]
fn print_then_parse_round_trips() {
    let input = "java.lang.Error: b: ad colons\n\tat mod1/a.b.C.d(C.java:3)\n\tat E.f(G.java)\n";
    let st = parse_stacktrace(input).unwrap();
    let printed = st.to_display_string();
    let again = parse_stacktrace(&printed).unwrap();
    assert_eq!(again.to_display_string(), printed);
    assert_eq!(printed, input);
}

#[test]
fn trace_errors_are_collected_with_spans() {
    let text = "java.lang.Error: m\n\tat a.A.d(A.java)\nnot a frame\n\tat nodotshere(B.java)\n";
    let e = parse_stacktrace(text).err().unwrap();
    assert_eq!(e.errors.len(), 2);
    assert_eq!(&text[e.errors[0].start..e.errors[0].end], "not a frame");
    assert_eq!(&text[e.errors[1].start..e.errors[1].end], "\tat nodotshere(B.java)");
}

#[test]
fn missing_version_error_names_the_id() {
    let manifest = VersionManifest { versions: vec![] };
    let e = find_version(manifest, "1.99").err().unwrap();
    assert_eq!(e.kind, ErrorKind::InvalidArgument);
    assert_eq!(e.context, vec!["no version id matched '1.99'".to_string()]);
}
