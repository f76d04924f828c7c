use std::io::Write;

use stacked_portrayals::mappings::fabric_intermediary;
use stacked_portrayals::mappings::mojang;
use stacked_portrayals::mappings::proguard::parse_proguard;
use stacked_portrayals::mappings::tiny::parse_tiny_v2;
use stacked_portrayals::mappings::{
    ClassMapper, Descriptor, MappingData, MappingType, MethodMapper, Type,
};
use stacked_portrayals::names::NamesType;
use stacked_portrayals::ErrorKind;

#[test]
fn proguard_single_method_class() {
    let pg = parse_proguard("a.B -> x.Y:\n    void m() -> n\n").unwrap();
    assert_eq!(pg.classes.len(), 1);
    let c = &pg.classes[0];
    assert_eq!(c.mapping.primary_name, "a.B");
    assert_eq!(c.mapping.secondary_name, "x.Y");
    assert_eq!(c.methods.len(), 1);
    let m = &c.methods[0];
    assert_eq!(m.mapping.primary_name, "m");
    assert_eq!(m.mapping.secondary_name, "n");
    assert!(m.primary_descriptor.params.is_empty());
    assert_eq!(m.primary_descriptor.return_type, Type::Void);
}

#[test]
fn proguard_comments_fields_and_affixes() {
    let text = "# compiled from: Example.java\na.B -> x.Y:\n    int field -> f\n    1:2:int q.W.foo(int,byte[]):3:4 -> a\n    void <init>() -> <init>\n";
    let pg = parse_proguard(text).unwrap();
    assert_eq!(pg.classes.len(), 1);
    let c = &pg.classes[0];
    // The field line is recognized and discarded.
    assert_eq!(c.methods.len(), 2);
    assert_eq!(c.methods[0].mapping.primary_name, "foo");
    assert_eq!(c.methods[0].mapping.secondary_name, "a");
    assert_eq!(c.methods[0].primary_descriptor.params.len(), 2);
    assert_eq!(c.methods[0].primary_descriptor.params[0], Type::Int);
    assert_eq!(
        c.methods[0].primary_descriptor.params[1],
        Type::Array(Box::new(Type::Byte))
    );
    assert_eq!(c.methods[1].mapping.primary_name, "<init>");
}

#[test]
fn proguard_bad_line_reports_span() {
    let e = parse_proguard("a.B -> x.Y\n").err().unwrap();
    assert!(!e.errors.is_empty());
    assert_eq!(e.source, "a.B -> x.Y\n");
}

#[test]
fn mojang_load_builds_both_directions() {
    let text = "a.B -> x.Y:\n    void m() -> n\n";
    // Vendor names into obfuscated names.
    let to_obf = mojang::load("1.20".to_string(), true, text).unwrap();
    assert_eq!(to_obf.from_names(), NamesType::Mojang);
    assert_eq!(to_obf.to_names(), NamesType::Obfuscated);
    assert_eq!(to_obf.map_class("a.B").unwrap(), "x.Y");
    // Obfuscated names into vendor names.
    let to_moj = mojang::load("1.20".to_string(), false, text).unwrap();
    assert_eq!(to_moj.from_names(), NamesType::Obfuscated);
    assert_eq!(to_moj.to_names(), NamesType::Mojang);
    assert_eq!(to_moj.map_class("x.Y").unwrap(), "a.B");
    let r = to_moj.map_method("x.Y", "n", None);
    assert_eq!(r.len(), 1);
    assert_eq!(r[0].1.name, "m");
}

const TINY_TEXT: &str =
    "tiny\t2\t0\tofficial\tintermediary\nc\ta/B\tc/D\n\tm\t(I)V\tfoo\tbar\n";

#[test]
fn tiny_header_class_and_method() {
    let tm = parse_tiny_v2(TINY_TEXT).unwrap();
    assert_eq!(tm.header.namespace_a, "official");
    assert_eq!(tm.header.namespace_b, "intermediary");
    assert!(tm.header.extra_namespaces.is_empty());
    assert_eq!(tm.content.classes.len(), 1);
    let c = &tm.content.classes[0];
    assert_eq!(c.mapping.primary_name, "a.B");
    assert_eq!(c.mapping.mapped_names, vec![Some("c.D".to_string())]);
    assert_eq!(c.methods.len(), 1);
    let m = &c.methods[0];
    assert_eq!(m.mapping.primary_name, "foo");
    assert_eq!(m.mapping.mapped_names, vec![Some("bar".to_string())]);
    assert_eq!(m.primary_desc.params, vec![Type::Int]);
    assert_eq!(m.primary_desc.return_type, Type::Void);
}

#[test]
fn tiny_class_names_have_no_slash() {
    let text = "tiny\t2\t0\tofficial\tintermediary\nc\tnet/minecraft/class_1\ta/b/C\n\tm\t(Lnet/minecraft/class_1;)V\tfoo\tbar\nc\tother/Thing\t\n";
    let tm = parse_tiny_v2(text).unwrap();
    for c in &tm.content.classes {
        assert!(!c.mapping.primary_name.contains('/'));
        for n in c.mapping.mapped_names.iter().flatten() {
            assert!(!n.contains('/'));
        }
    }
    assert_eq!(tm.content.classes[0].mapping.primary_name, "net.minecraft.class_1");
    assert_eq!(
        tm.content.classes[0].methods[0].primary_desc.params[0],
        Type::Object("net.minecraft.class_1".to_string())
    );
}

#[test]
fn tiny_skips_properties_fields_and_subsections() {
    let text = "tiny\t2\t0\tofficial\tintermediary\n\tescaped-names\nc\ta\tb\n\tf\tLa;\tx\ty\n\tm\t()V\tp\tq\n\t\tcomment line\n";
    let tm = parse_tiny_v2(text).unwrap();
    assert_eq!(tm.header.properties, vec!["escaped-names".to_string()]);
    assert_eq!(tm.content.classes.len(), 1);
    assert_eq!(tm.content.classes[0].methods.len(), 1);
    assert_eq!(tm.content.classes[0].methods[0].mapping.primary_name, "p");
}

#[test]
fn tiny_bad_header_is_an_error() {
    let e = parse_tiny_v2("tiny\t1\t0\ta\tb\n").err().unwrap();
    assert!(!e.errors.is_empty());
}

fn tiny_jar(text: &str) -> Vec<u8> {
    let mut buf = std::io::Cursor::new(Vec::new());
    {
        let mut writer = zip::ZipWriter::new(&mut buf);
        let options = zip::write::SimpleFileOptions::default();
        writer.start_file("mappings/mappings.tiny", options).unwrap();
        writer.write_all(text.as_bytes()).unwrap();
        writer.finish().unwrap();
    }
    buf.into_inner()
}

#[test]
fn fabric_load_reads_the_jar() {
    let jar = tiny_jar(TINY_TEXT);
    let mapper = fabric_intermediary::load("1.20".to_string(), true, &jar).unwrap();
    assert_eq!(mapper.from_names(), NamesType::Obfuscated);
    assert_eq!(mapper.to_names(), NamesType::FabricIntermediary);
    assert_eq!(mapper.map_class("a.B").unwrap(), "c.D");
    let desc = Descriptor { params: vec![Type::Int], return_type: Type::Void };
    let r = mapper.map_method("a.B", "foo", Some(&desc));
    assert_eq!(r.len(), 1);
    assert_eq!(r[0].0, "c.D");
    assert_eq!(r[0].1.name, "bar");
}

#[test]
fn fabric_load_flipped_direction() {
    let jar = tiny_jar(TINY_TEXT);
    let mapper = fabric_intermediary::load("1.20".to_string(), false, &jar).unwrap();
    assert_eq!(mapper.from_names(), NamesType::FabricIntermediary);
    assert_eq!(mapper.to_names(), NamesType::Obfuscated);
    assert_eq!(mapper.map_class("c.D").unwrap(), "a.B");
}

#[test]
fn fabric_load_rejects_wrong_namespaces() {
    let jar = tiny_jar("tiny\t2\t0\tnamed\tintermediary\nc\ta\tb\n");
    let e = fabric_intermediary::load("1.20".to_string(), true, &jar).err().unwrap();
    assert_eq!(e.kind, ErrorKind::FormatFailure);
}

#[test]
fn fabric_load_rejects_a_broken_archive() {
    let e = fabric_intermediary::load("1.20".to_string(), true, &b"not a jar".to_vec())
        .err()
        .unwrap();
    assert_eq!(e.kind, ErrorKind::IoFailure);
}

#[test]
fn edge_loaders_check_the_artifact_kind() {
    let e = MappingType::ObfToMojang
        .load("1.20".to_string(), MappingData::IntermediaryJar(Vec::new()))
        .err()
        .unwrap();
    assert_eq!(e.kind, ErrorKind::InternalInvariant);
    let b = MappingType::MojangToObf
        .load(
            "1.20".to_string(),
            MappingData::ProguardText("a.B -> x.Y:\n".to_string()),
        )
        .unwrap();
    assert_eq!(b.from_names(), NamesType::Mojang);
    assert_eq!(b.to_names(), NamesType::Obfuscated);
}

#[test]
fn artifact_url_is_version_addressed() {
    assert_eq!(
        fabric_intermediary::artifact_url("1.20.1"),
        "https://maven.fabricmc.net/net/fabricmc/intermediary/1.20.1/intermediary-1.20.1-v2.jar"
    );
}

#[test]
fn proguard_collects_every_bad_line() {
    let text = "a.B -> x.Y:\n    not a member\n    void ok() -> n\n    also ! bad\nq.Z -> w\n";
    let e = parse_proguard(text).err().unwrap();
    assert_eq!(e.errors.len(), 3);
    assert_eq!(e.source, text);
    // Spans point at the offending lines, in order.
    assert_eq!(&text[e.errors[0].start..e.errors[0].end], "    not a member");
    assert_eq!(&text[e.errors[1].start..e.errors[1].end], "    also ! bad");
    assert_eq!(&text[e.errors[2].start..e.errors[2].end], "q.Z -> w");
}

#[test]
fn tiny_collects_every_bad_line() {
    let text = "tiny\t2\t0\tofficial\tintermediary\nc\ta\tb\n\tm\tbroken\tfoo\tbar\n\tm\t()V\tok\tfine\n\tm\talso broken\tx\ty\n";
    let e = parse_tiny_v2(text).err().unwrap();
    assert_eq!(e.errors.len(), 2);
    assert_eq!(&text[e.errors[0].start..e.errors[0].end], "\tm\tbroken\tfoo\tbar");
    assert_eq!(&text[e.errors[1].start..e.errors[1].end], "\tm\talso broken\tx\ty");
}

#[test]
fn namespace_error_names_version_and_header() {
    let jar = tiny_jar("tiny\t2\t0\tnamed\tintermediary\nc\ta\tb\n");
    let e = fabric_intermediary::load("1.20.4".to_string(), true, &jar).err().unwrap();
    assert_eq!(e.kind, ErrorKind::FormatFailure);
    assert_eq!(
        e.context,
        vec![
            "tiny mappings for 1.20.4 are in namespaces named/intermediary, expected official/intermediary"
                .to_string(),
        ]
    );
}

#[test]
fn loader_parse_errors_name_the_version() {
    let e = mojang::load("1.19".to_string(), true, "not proguard").err().unwrap();
    assert_eq!(e.kind, ErrorKind::FormatFailure);
    assert_eq!(e.context, vec!["failed to parse proguard mappings for 1.19".to_string()]);
    assert!(e.parse_errors.is_some());
}
