use bsmeta::errno::Error;
use bsmeta::fs::{Inode, ROFilesystem};
use bsmeta::plugin::{
    analysis_result, parse_output, with_script, AnalysisError, AnalysisPlugin, AnalysisValue,
    BundleEntry, HostError, Member,
};
use bsmeta::registry::{base_plugin, bundle_path, interpreter_path, Registry, RegistryError};

fn archive(files: &[(&str, &[u8])]) -> Vec<u8> {
    let mut builder = tar::Builder::new(Vec::new());
    for (path, data) in files {
        let mut header = tar::Header::new_old();
        header.set_path(path).unwrap();
        header.set_entry_type(tar::EntryType::Regular);
        header.set_size(data.len() as u64);
        header.set_cksum();
        builder.append(&header, *data).unwrap();
    }
    builder.into_inner().unwrap()
}

fn plugin(files: &[(&str, &[u8])]) -> AnalysisPlugin {
    AnalysisPlugin::new("parity".to_string(), "js".to_string(), archive(files))
}

fn file<'a>(fs: &'a ROFilesystem, dir: u32, path: &[u8]) -> &'a [u8] {
    let ino = fs.resolve(Inode(dir), path).unwrap();
    fs.nodes[ino.0 as usize - 1].data.as_ref().unwrap()
}

#[test]
fn a_plugin_has_its_name_and_interpreter() {
    let p = plugin(&[]);
    assert_eq!(p.name(), "parity");
    assert_eq!(p.interp(), "js");
}

#[test]
fn prepare_unpacks_the_bundle_and_mounts_the_input() {
    let p = plugin(&[("script.js", b"print(1)"), ("lib/rt.js", b"runtime")]);
    let fs = p.prepare(b"DAT".to_vec()).unwrap();
    assert_eq!(fs.preopens, vec![b"/work".to_vec(), b"/data".to_vec()]);
    assert_eq!(file(&fs, 2, b"script.js"), b"print(1)");
    assert_eq!(file(&fs, 2, b"lib/rt.js"), b"runtime");
    assert_eq!(file(&fs, 3, b"map.dat"), b"DAT");
    assert_eq!(fs.resolve(Inode(2), b"map.dat"), Err(Error::Noent));
    assert_eq!(fs.fds.len(), 2);
}

#[test]
fn prepare_reads_an_empty_bundle() {
    let fs = plugin(&[]).prepare(vec![]).unwrap();
    assert_eq!(file(&fs, 3, b"map.dat"), b"");
    assert_eq!(fs.nodes.len(), 4);
}

#[test]
fn prepare_reports_a_bundle_that_is_no_archive() {
    let p = AnalysisPlugin::new("p".to_string(), "js".to_string(), vec![7; 700]);
    assert!(matches!(p.prepare(vec![]), Err(HostError::Bundle)));
}

#[test]
fn prepare_reports_a_file_that_has_no_place() {
    let p = plugin(&[("a.js", b"1"), ("a.js", b"2")]);
    match p.prepare(vec![]) {
        Err(HostError::Filesystem(e)) => {
            assert_eq!(e.entry, 1);
            assert_eq!(e.error, Error::Exist);
        }
        other => panic!("{:?}", other.map(|_| ())),
    }
}

#[test]
fn the_result_is_read_from_standard_output() {
    let mut fs = plugin(&[("script.js", b"")]).prepare(vec![]).unwrap();
    fs.stdout = b"{\"foo\":1,\"bar\":\"x\"}".to_vec();
    fs.stderr = b"warning".to_vec();
    let out = AnalysisPlugin::finish(&fs, Ok(())).unwrap();
    assert_eq!(out.stderr, b"warning");
    assert_eq!(
        out.result,
        Ok(vec![
            ("bar".to_string(), AnalysisValue::String("x".to_string())),
            ("foo".to_string(), AnalysisValue::Number("1".to_string())),
        ])
    );
}

#[test]
fn a_trap_fails_one_run_and_no_other() {
    let p = plugin(&[("script.js", b"")]);
    let fs = p.prepare(vec![]).unwrap();
    let failed = AnalysisPlugin::finish(&fs, Err("wasi_snapshot_preview1:random_get".to_string()));
    match failed {
        Err(HostError::Trap(why)) => assert_eq!(why, "wasi_snapshot_preview1:random_get"),
        other => panic!("{:?}", other),
    }
    let other = plugin(&[("other.js", b"")]);
    let mut fs = other.prepare(b"x".to_vec()).unwrap();
    assert!(fs.stdout.is_empty());
    fs.stdout = b"{\"ok\":\"yes\"}".to_vec();
    let out = AnalysisPlugin::finish(&fs, Ok(())).unwrap();
    assert_eq!(
        out.result,
        Ok(vec![("ok".to_string(), AnalysisValue::String("yes".to_string()))])
    );
    assert!(out.stderr.is_empty());
}

#[test]
fn output_that_is_no_object_is_malformed() {
    assert_eq!(parse_output(b""), Err(AnalysisError::Malformed));
    assert_eq!(parse_output(b"hello"), Err(AnalysisError::Malformed));
    assert_eq!(parse_output(b"[1,2]"), Err(AnalysisError::Malformed));
    assert_eq!(parse_output(b"3"), Err(AnalysisError::Malformed));
    assert_eq!(parse_output(b"{\"a\":1} trailing"), Err(AnalysisError::Malformed));
    assert_eq!(parse_output(b"{\"a\":1"), Err(AnalysisError::Malformed));
    assert_eq!(parse_output(b"{}"), Ok(vec![]));
}

#[test]
fn a_member_of_the_wrong_kind_is_named() {
    assert_eq!(parse_output(b"{\"a\":1,\"b\":null}"), Err(AnalysisError::WrongType("b".to_string())));
    assert_eq!(
        parse_output(b"{\"z\":true,\"c\":[1],\"a\":\"x\"}"),
        Err(AnalysisError::WrongType("c".to_string()))
    );
    assert_eq!(parse_output(b"{\"o\":{}}"), Err(AnalysisError::WrongType("o".to_string())));
}

#[test]
fn numbers_keep_their_text() {
    assert_eq!(
        parse_output(b"{\"n\":-12,\"f\":1.5,\"big\":18446744073709551615,\"s\":\"1\"}"),
        Ok(vec![
            ("big".to_string(), AnalysisValue::Number("18446744073709551615".to_string())),
            ("f".to_string(), AnalysisValue::Number("1.5".to_string())),
            ("n".to_string(), AnalysisValue::Number("-12".to_string())),
            ("s".to_string(), AnalysisValue::String("1".to_string())),
        ])
    );
    assert_eq!(
        parse_output(b"{\"k\":1,\"k\":2}"),
        Ok(vec![("k".to_string(), AnalysisValue::Number("2".to_string()))])
    );
}

#[test]
fn members_become_values_in_order() {
    let members = vec![
        ("b".to_string(), Member::Number("2".to_string())),
        ("a".to_string(), Member::String("x".to_string())),
    ];
    assert_eq!(
        analysis_result(&members),
        Ok(vec![
            ("b".to_string(), AnalysisValue::Number("2".to_string())),
            ("a".to_string(), AnalysisValue::String("x".to_string())),
        ])
    );
    let wrong = vec![
        ("b".to_string(), Member::Number("2".to_string())),
        ("c".to_string(), Member::Other),
        ("d".to_string(), Member::Other),
    ];
    assert_eq!(analysis_result(&wrong), Err(AnalysisError::WrongType("c".to_string())));
    assert_eq!(analysis_result(&vec![]), Ok(vec![]));
}

#[test]
fn the_registry_names_the_interpreter_of_each_plugin() {
    let registry = Registry::parse(b"{\"parity\":\"js\",\"difficulty\":\"py\"}").unwrap();
    assert_eq!(registry.plugins.len(), 2);
    assert_eq!(registry.interpreter("parity"), Ok("js"));
    assert_eq!(registry.interpreter("difficulty"), Ok("py"));
    assert_eq!(
        registry.interpreter("missing"),
        Err(RegistryError::UnknownPlugin("missing".to_string()))
    );
    assert_eq!(Registry::parse(b"{}").unwrap().plugins.len(), 0);
}

#[test]
fn a_registry_document_must_be_an_object_of_strings() {
    assert!(matches!(Registry::parse(b"[]"), Err(RegistryError::Malformed)));
    assert!(matches!(Registry::parse(b"not json"), Err(RegistryError::Malformed)));
    match Registry::parse(b"{\"a\":\"js\",\"b\":3,\"c\":null}") {
        Err(RegistryError::NoInterpreter(key)) => assert_eq!(key, "b"),
        _ => panic!("the member under b is no string"),
    }
    let members = vec![("p".to_string(), Member::Other)];
    assert!(matches!(Registry::from_members(&members), Err(RegistryError::NoInterpreter(_))));
}

#[test]
fn files_lie_in_the_distribution() {
    assert_eq!(interpreter_path("js"), "plugins/dist/js.wasm");
    assert_eq!(bundle_path("parity"), "plugins/dist/parity.tar");
    assert_eq!(bundle_path(""), "plugins/dist/.tar");
}

#[test]
fn a_script_takes_the_place_of_the_entry_script() {
    assert_eq!(base_plugin("js"), Some(("parity", "script.js")));
    assert_eq!(base_plugin("py"), Some(("difficulty", "script.py")));
    assert_eq!(base_plugin("rb"), None);
    assert_eq!(base_plugin(""), None);
    let entries = vec![
        BundleEntry { path: b"lib.js".to_vec(), data: b"lib".to_vec() },
        BundleEntry { path: b"script.js".to_vec(), data: b"old".to_vec() },
        BundleEntry { path: b"script.js.map".to_vec(), data: b"map".to_vec() },
    ];
    let out = with_script(&entries, b"script.js", b"new script");
    assert_eq!(out.len(), 3);
    assert_eq!(out[0].path, b"lib.js");
    assert_eq!(out[0].data, b"lib");
    assert_eq!(out[1].path, b"script.js");
    assert_eq!(out[1].data, b"new script");
    assert_eq!(out[2].path, b"script.js.map");
    assert_eq!(out[2].data, b"map");
    assert_eq!(with_script(&entries, b"none", b"x")[1].data, b"old");
    assert!(with_script(&vec![], b"script.js", b"x").is_empty());
}
