use aptos_tracer::{
    index_compile_response, package_names, resolve_root, trim_hash_prefix, ByteSpan, CallTrace,
    CallTraceWithSource, CallTraces, CodeMapping, DebuggerServerConfig, FunctionSourceMap,
    InternalCallTrace, ModuleCompilation, ModuleIndex, ModuleMetadata, PackageCompilation,
    PackageMetadata, PackageRegistry, Position, SourceMapTable,
};
use std::collections::HashMap;
use std::io::Write;

const SOURCE: &str = "module 0x1::a {\n    fun main() { b::run(); }\n}\n";

fn table() -> SourceMapTable {
    SourceMapTable {
        functions: vec![FunctionSourceMap {
            fdef_idx: 3,
            code_map: vec![CodeMapping { offset: 5, span: ByteSpan { start: 33, end: 41 } }],
        }],
    }
}

fn compiled(name: &str, source: &str) -> ModuleCompilation {
    ModuleCompilation {
        name: name.to_string(),
        source_map: format!("0x{}", hex::encode(table().encode())),
        source: source.to_string(),
        bytecode: String::new(),
        abi: None,
    }
}

fn call(from: &str, to: &str, func: &str, fdef_idx: u16, pc: u16) -> InternalCallTrace {
    let mut f = InternalCallTrace::default();
    f.from_module_id = from.to_string();
    f.module_id = to.to_string();
    f.func_name = func.to_string();
    f.fdef_idx = fdef_idx;
    f.pc = pc;
    f.inputs = vec!["1".to_string()];
    f.outputs = vec!["2".to_string()];
    f.type_args = vec!["0x1::aptos_coin::AptosCoin".to_string()];
    f
}

fn tree() -> InternalCallTrace {
    let mut root = call("0x1::a", "0x2::b", "run", 3, 5);
    let child = call("0x2::b", "0x3::c", "leaf", 0, 0);
    root.sub_traces.push(child).unwrap();
    root
}

#[test]
fn from_modules_annotates_caller_locations() {
    let mut index = ModuleIndex::new();
    index.insert("0x1::a".to_string(), compiled("a", SOURCE));
    let r = CallTraceWithSource::from_modules(&tree(), &index);
    assert_eq!(r.from, "0x1");
    assert_eq!(r.contract_name, "a");
    assert_eq!(r.to, "0x2");
    assert_eq!(r.function_name, "b::run");
    assert_eq!(r.inputs, vec!["1".to_string()]);
    assert_eq!(r.return_value, vec!["2".to_string()]);
    let loc = r.location.as_ref().unwrap();
    assert_eq!(loc.account, "0x1");
    assert_eq!(loc.module, "a");
    assert_eq!(loc.lines.start, Position { line: 1, column: 17 });
    assert_eq!(loc.lines.end, Position { line: 1, column: 25 });
    assert_eq!(r.calls.len(), 1);
    assert_eq!(r.calls[0].function_name, "c::leaf");
    assert!(r.calls[0].location.is_none());
}

#[test]
fn empty_source_gives_no_location() {
    let mut index = ModuleIndex::new();
    index.insert("0x1::a".to_string(), compiled("a", ""));
    let r = CallTraceWithSource::from_modules(&tree(), &index);
    assert!(r.location.is_none());
    assert_eq!(r.function_name, "b::run");
}

#[test]
fn later_index_entry_replaces_earlier() {
    let mut index = ModuleIndex::new();
    index.insert("0x1::a".to_string(), compiled("a", SOURCE));
    index.insert("0x1::a".to_string(), compiled("a", ""));
    assert_eq!(index.get("0x1::a").unwrap().source, "");
    assert!(index.get("0x1::b").is_none());
}

fn gzip(bytes: &[u8]) -> Vec<u8> {
    let mut enc = flate2::write::GzEncoder::new(Vec::new(), flate2::Compression::default());
    enc.write_all(bytes).unwrap();
    enc.finish().unwrap()
}

fn registry() -> PackageRegistry {
    PackageRegistry {
        packages: vec![
            PackageMetadata {
                name: "Other".to_string(),
                modules: vec![ModuleMetadata { name: "z".to_string(), source: vec![], source_map: vec![] }],
            },
            PackageMetadata {
                name: "Main".to_string(),
                modules: vec![ModuleMetadata {
                    name: "a".to_string(),
                    source: gzip(SOURCE.as_bytes()),
                    source_map: gzip(&table().encode()),
                }],
            },
        ],
    }
}

#[test]
fn from_registries_annotates_caller_locations() {
    let registries = vec![("0x1".to_string(), registry())];
    let r = CallTraceWithSource::from(&tree(), &registries);
    let loc = r.location.as_ref().unwrap();
    assert_eq!(loc.lines.start, Position { line: 1, column: 17 });
    assert!(r.calls[0].location.is_none());
    assert_eq!(registries[0].1.package_with_module("a").unwrap().name, "Main");
    assert!(registries[0].1.find_module("q").is_none());
}

#[test]
fn package_names_map_each_package_to_its_account() {
    let registries = vec![("0x1".to_string(), registry()), ("0x7".to_string(), PackageRegistry {
        packages: vec![PackageMetadata { name: "Dep".to_string(), modules: vec![] }],
    })];
    let names = package_names(&registries);
    assert_eq!(names, vec![
        ("Other".to_string(), "0x1".to_string()),
        ("Main".to_string(), "0x1".to_string()),
        ("Dep".to_string(), "0x7".to_string()),
    ]);
}

#[test]
fn compile_response_indexes_package_and_known_dependencies() {
    let response = PackageCompilation {
        name: "Main".to_string(),
        module_without_code: None,
        modules: vec![compiled("a", SOURCE)],
        dependencies: Some(vec![
            PackageCompilation {
                name: "Dep".to_string(),
                module_without_code: None,
                modules: vec![compiled("d", SOURCE)],
                dependencies: None,
            },
            PackageCompilation {
                name: "Unknown".to_string(),
                module_without_code: None,
                modules: vec![compiled("u", SOURCE)],
                dependencies: None,
            },
        ]),
    };
    let names = vec![("Dep".to_string(), "0x7".to_string())];
    let index = index_compile_response("0x1", response, &names);
    let keys: Vec<&str> = index.entries.iter().map(|e| e.0.as_str()).collect();
    assert_eq!(keys, vec!["0x1::a", "0x7::d"]);
}

#[test]
fn resolve_root_takes_the_last_frame() {
    let mut stack = CallTraces::new();
    assert!(resolve_root(&mut stack, &ModuleIndex::new()).is_none());
    stack.push(tree()).unwrap();
    let r = resolve_root(&mut stack, &ModuleIndex::new()).unwrap();
    assert_eq!(r.function_name, "b::run");
    assert_eq!(stack.len(), 0);
}

#[test]
fn client_call_tree_keeps_nesting() {
    let t = CallTrace::from(tree());
    assert_eq!(t.module_id, "0x2::b");
    assert_eq!(t.pc, 5);
    assert_eq!(t.sub_traces.len(), 1);
    assert_eq!(t.sub_traces[0].func_name, "leaf");
    assert!(t.sub_traces[0].sub_traces.is_empty());
}

#[test]
fn hash_prefix_is_trimmed() {
    assert_eq!(trim_hash_prefix("0xabc"), "abc");
    assert_eq!(trim_hash_prefix("abc"), "abc");
    assert_eq!(trim_hash_prefix("0x"), "");
    assert_eq!(trim_hash_prefix(""), "");
}

#[test]
fn default_config_and_setters() {
    let mut c = DebuggerServerConfig::default();
    assert!(!c.disable);
    assert_eq!(c.listen_address, "0.0.0.0");
    assert_eq!(c.listen_port, 9201);
    assert!(!c.use_db);
    assert_eq!(c.sentio_endpoint, "https://test.sentio.xyz");
    assert_eq!(c.rest_endpoint_for(2001), "https://aptos.testnet.suzuka.movementlabs.xyz/v1");
    assert_eq!(c.rest_endpoint_for(5), "https://fullnode.mainnet.aptoslabs.com/v1");
    c.set_db_path("/data/db".to_string());
    c.set_use_db(true);
    c.set_sentio_endpoint("http://localhost:8080".to_string());
    c.set_rest_endpoints(HashMap::from([(5u16, "http://node".to_string())]));
    assert_eq!(c.db_path, "/data/db");
    assert!(c.use_db);
    assert_eq!(c.sentio_endpoint, "http://localhost:8080");
    assert_eq!(c.rest_endpoint_for(5), "http://node");
    assert_eq!(c.rest_endpoint_for(1), "https://fullnode.mainnet.aptoslabs.com/v1");
}

#[test]
fn module_ids_split_at_the_separator() {
    let (a, m) = aptos_tracer::module_id::split_module_id("0x1::coin::extra");
    assert_eq!((a.as_str(), m.as_str()), ("0x1", "coin"));
    let (a, m) = aptos_tracer::module_id::split_module_id("0x1");
    assert_eq!((a.as_str(), m.as_str()), ("0x1", ""));
}

#[test]
fn endpoint_list_parses_into_map() {
    let m = aptos_tracer::parse_endpoint_map("1=https://a,2001=http://b").unwrap();
    assert_eq!(m.len(), 2);
    assert_eq!(m[&1], "https://a");
    assert_eq!(m[&2001], "http://b");
    let m = aptos_tracer::parse_endpoint_map("+7=x,7=y,8=u=v,9=").unwrap();
    assert_eq!(m[&7], "y");
    assert_eq!(m[&8], "u");
    assert_eq!(m[&9], "");
    assert!(aptos_tracer::parse_endpoint_map("x=1").is_none());
    assert!(aptos_tracer::parse_endpoint_map("1").is_none());
    assert!(aptos_tracer::parse_endpoint_map("70000=a").is_none());
    assert!(aptos_tracer::parse_endpoint_map("").is_none());
    assert!(aptos_tracer::parse_endpoint_map("1=a,").is_none());
}
