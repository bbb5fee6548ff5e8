//! The source-annotated view of a recorded call tree, and the metadata that
//! it is resolved against: compiled packages fetched from a compilation
//! service, or package registries read from the ledger.

use vstd::prelude::*;
use crate::call_trace::{pop_frames, CallTraces, InternalCallTrace};
use crate::line_col::Range;
use crate::module_id::{account_part, module_part, same_text, split_module_id};
use crate::resolve::{
    locate_hex, locate_zipped, range_model, spec_locate_hex, spec_locate_zipped, LineColModel,
};

verus! {

/// Where in the source a call was made from.
#[derive(Debug, PartialEq, Eq)]
pub struct Location {
    pub account: String,
    pub module: String,
    pub lines: Range,
}

/// One compiled module as the compilation service returns it: source map
/// and bytecode as hexadecimal text.
#[derive(Debug, PartialEq, Eq)]
pub struct ModuleCompilation {
    pub name: String,
    pub source_map: String,
    pub source: String,
    pub bytecode: String,
    pub abi: Option<Vec<(String, String)>>,
}

/// A compiled package with its modules and the packages it depends on.
#[derive(Debug, PartialEq, Eq)]
pub struct PackageCompilation {
    pub name: String,
    pub module_without_code: Option<Vec<String>>,
    pub modules: Vec<ModuleCompilation>,
    pub dependencies: Option<Vec<PackageCompilation>>,
}

/// A module of an on-chain package, with its source map and source text
/// gzip-compressed (either may be empty).
#[derive(Debug, PartialEq, Eq)]
pub struct ModuleMetadata {
    pub name: String,
    pub source: Vec<u8>,
    pub source_map: Vec<u8>,
}

/// An on-chain package.
#[derive(Debug, PartialEq, Eq)]
pub struct PackageMetadata {
    pub name: String,
    pub modules: Vec<ModuleMetadata>,
}

/// The packages that one account has published.
#[derive(Debug, PartialEq, Eq)]
pub struct PackageRegistry {
    pub packages: Vec<PackageMetadata>,
}

/// Compiled modules keyed by `account::module`; a later entry for a key
/// replaces an earlier one.
#[derive(Debug, PartialEq, Eq)]
pub struct ModuleIndex {
    pub entries: Vec<(String, ModuleCompilation)>,
}

/// A call of the trace, annotated with the location it was made from.
#[derive(Debug, PartialEq, Eq)]
pub struct CallTraceWithSource {
    pub from: String,
    pub to: String,
    pub contract_name: String,
    pub function_name: String,
    pub inputs: Vec<String>,
    pub return_value: Vec<String>,
    pub type_args: Vec<String>,
    pub calls: Vec<CallTraceWithSource>,
    pub location: Option<Location>,
}

/// The value of the last of the first `n` entries whose key is `key`.
pub open spec fn last_entry<V>(es: Seq<(String, V)>, key: Seq<char>, n: int) -> Option<V>
    decreases n,
{
    if n <= 0 || n > es.len() {
        None
    } else if es[n - 1].0@ == key {
        Some(es[n - 1].1)
    } else {
        last_entry(es, key, n - 1)
    }
}

/// The value of the last entry of `es` whose key is `key`.
pub open spec fn entry_of<V>(es: Seq<(String, V)>, key: Seq<char>) -> Option<V> {
    last_entry(es, key, es.len() as int)
}

/// Finds the value of the last entry whose key is `key`.
pub fn find_entry<'a, V>(es: &'a Vec<(String, V)>, key: &str) -> (r: Option<&'a V>)
    ensures
        r matches Some(v) ==> entry_of(es@, key@) == Some(*v),
        r is None ==> entry_of(es@, key@) is None,
{
    let mut n = es.len();
    while n > 0
        invariant
            n <= es@.len(),
            last_entry(es@, key@, n as int) == entry_of(es@, key@),
        decreases n,
    {
        if same_text(es[n - 1].0.as_str(), key) {
            return Some(&es[n - 1].1);
        }
        n = n - 1;
    }
    None
}

impl ModuleIndex {
    /// An empty index.
    pub fn new() -> (r: Self)
        ensures
            r.entries@.len() == 0,
    {
        ModuleIndex { entries: Vec::new() }
    }

    /// The module recorded last under `key`.
    pub fn get(&self, key: &str) -> (r: Option<&ModuleCompilation>)
        ensures
            r matches Some(m) ==> entry_of(self.entries@, key@) == Some(*m),
            r is None ==> entry_of(self.entries@, key@) is None,
    {
        find_entry(&self.entries, key)
    }

    /// Records `module` under `key`, replacing what was there.
    pub fn insert(&mut self, key: String, module: ModuleCompilation)
        ensures
            final(self).entries@ == old(self).entries@.push((key, module)),
            entry_of(final(self).entries@, key@) == Some(module),
    {
        self.entries.push((key, module));
    }
}

/// The location that the compiled module recorded under the caller's module
/// identifier gives for `ct`.
pub open spec fn compiled_location(ct: InternalCallTrace, es: Seq<(String, ModuleCompilation)>) -> Option<
    LineColModel,
> {
    match entry_of(es, ct.from_module_id@) {
        None => None,
        Some(m) => spec_locate_hex(m.source_map@, m.source@, ct.fdef_idx, ct.pc),
    }
}

/// `loc` is the location `span` in the caller's account and module of `ct`,
/// or absent exactly when `span` is.
pub open spec fn location_is(
    loc: Option<Location>,
    ct: InternalCallTrace,
    span: Option<LineColModel>,
) -> bool {
    &&& loc is Some <==> span is Some
    &&& loc matches Some(l) ==> {
        &&& l.account@ == account_part(ct.from_module_id@)
        &&& l.module@ == module_part(ct.from_module_id@)
        &&& span == Some(range_model(l.lines))
    }
}

/// The fields of `r` other than its location and calls are those of `ct`:
/// caller account and module, callee account, `module::function`, values
/// and type arguments.
pub open spec fn fields_projected(ct: InternalCallTrace, r: CallTraceWithSource) -> bool {
    &&& r.from@ == account_part(ct.from_module_id@)
    &&& r.contract_name@ == module_part(ct.from_module_id@)
    &&& r.to@ == account_part(ct.module_id@)
    &&& r.function_name@ == module_part(ct.module_id@) + seq![':', ':'] + ct.func_name@
    &&& r.inputs.deep_view() == ct.inputs.deep_view()
    &&& r.return_value.deep_view() == ct.outputs.deep_view()
    &&& r.type_args.deep_view() == ct.type_args.deep_view()
}

/// `r` is `ct` with every call of the tree located through the compiled
/// modules `es`, children in call order.
pub open spec fn resolved_with_modules(
    ct: InternalCallTrace,
    r: CallTraceWithSource,
    es: Seq<(String, ModuleCompilation)>,
) -> bool
    decreases ct,
{
    &&& fields_projected(ct, r)
    &&& location_is(r.location, ct, compiled_location(ct, es))
    &&& r.calls@.len() == ct.sub_traces.0@.len()
    &&& forall|i: int|
        0 <= i < ct.sub_traces.0@.len() ==> resolved_with_modules(
            #[trigger] ct.sub_traces.0@[i],
            r.calls@[i],
            es,
        )
}

/// Copies a list of texts.
fn copy_texts(v: &Vec<String>) -> (r: Vec<String>)
    ensures
        r.deep_view() == v.deep_view(),
{
    let r = v.clone();
    proof {
        assert(r.deep_view() =~= v.deep_view()) by {
            assert forall|i: int| 0 <= i < v@.len() implies #[trigger] r@[i]@ == v@[i]@ by {
                assert(vstd::pervasive::cloned::<String>(v@[i], r@[i]));
            }
        }
    }
    r
}

/// The annotated node for `call_trace` with the given location and calls.
fn project_node(
    call_trace: &InternalCallTrace,
    location: Option<Location>,
    calls: Vec<CallTraceWithSource>,
) -> (r: CallTraceWithSource)
    ensures
        fields_projected(*call_trace, r),
        r.location == location,
        r.calls == calls,
{
    let (account, module_name) = split_module_id(call_trace.from_module_id.as_str());
    let (to_account, to_module_name) = split_module_id(call_trace.module_id.as_str());
    let mut function_name = to_module_name;
    function_name.append("::");
    function_name.append(call_trace.func_name.as_str());
    proof {
        reveal_strlit("::");
        assert("::"@ =~= seq![':', ':']);
    }
    assert(function_name@ == module_part(call_trace.module_id@) + seq![':', ':'] + call_trace.func_name@);
    let inputs = copy_texts(&call_trace.inputs);
    assert(inputs.deep_view() == call_trace.inputs.deep_view());
    CallTraceWithSource {
        from: account,
        to: to_account,
        contract_name: module_name,
        function_name,
        inputs,
        return_value: copy_texts(&call_trace.outputs),
        type_args: copy_texts(&call_trace.type_args),
        calls,
        location,
    }
}

/// The location of `call_trace` from the given span, in the caller's
/// account and module.
fn location_of(call_trace: &InternalCallTrace, lines: Option<Range>) -> (r: Option<Location>)
    ensures
        r is Some <==> lines is Some,
        r matches Some(l) ==> l.account@ == account_part(call_trace.from_module_id@)
            && l.module@ == module_part(call_trace.from_module_id@) && lines == Some(l.lines),
{
    match lines {
        None => None,
        Some(lines) => {
            let (account, module) = split_module_id(call_trace.from_module_id.as_str());
            Some(Location { account, module, lines })
        },
    }
}

impl CallTraceWithSource {
    /// An empty annotated call.
    pub fn default() -> (r: Self)
        ensures
            r.from@.len() == 0,
            r.to@.len() == 0,
            r.contract_name@.len() == 0,
            r.function_name@.len() == 0,
            r.inputs@.len() == 0,
            r.return_value@.len() == 0,
            r.type_args@.len() == 0,
            r.calls@.len() == 0,
            r.location is None,
    {
        CallTraceWithSource {
            from: String::new(),
            to: String::new(),
            contract_name: String::new(),
            function_name: String::new(),
            inputs: Vec::new(),
            return_value: Vec::new(),
            type_args: Vec::new(),
            calls: Vec::new(),
            location: None,
        }
    }

    /// Annotates the tree `call_trace` with locations from the compiled
    /// modules in `modules_map`, keyed by the caller's module identifier. A
    /// call whose module is missing, whose source map or source is empty,
    /// or whose lookup fails gets no location; the rest of the tree is
    /// annotated all the same.
    pub fn from_modules(call_trace: &InternalCallTrace, modules_map: &ModuleIndex) -> (r: Self)
        ensures
            resolved_with_modules(*call_trace, r, modules_map.entries@),
        decreases call_trace,
    {
        let children = &call_trace.sub_traces.0;
        let n = children.len();
        let mut calls: Vec<CallTraceWithSource> = Vec::new();
        let mut i: usize = 0;
        while i < n
            invariant
                n == children@.len(),
                children == &call_trace.sub_traces.0,
                i <= n,
                calls@.len() == i,
                forall|j: int|
                    0 <= j < i ==> resolved_with_modules(
                        #[trigger] children@[j],
                        calls@[j],
                        modules_map.entries@,
                    ),
            decreases n - i,
        {
            proof {
                assert(decreases_to!(*call_trace => call_trace.sub_traces));
                assert(decreases_to!(call_trace.sub_traces => call_trace.sub_traces.0));
                assert(decreases_to!(call_trace.sub_traces.0 => call_trace.sub_traces.0@));
                assert(decreases_to!(call_trace.sub_traces.0@ => call_trace.sub_traces.0@[i as int]));
            }
            let child = Self::from_modules(&children[i], modules_map);
            calls.push(child);
            i = i + 1;
        }
        let lines = match modules_map.get(call_trace.from_module_id.as_str()) {
            None => None,
            Some(module) => locate_hex(
                module.source_map.as_str(),
                module.source.as_str(),
                call_trace.fdef_idx,
                call_trace.pc,
            ),
        };
        let location = location_of(call_trace, lines);
        let r = project_node(call_trace, location, calls);
        r
    }
}

/// Position of the first module named `name` in `ms` at or after `from`.
pub open spec fn module_from(ms: Seq<ModuleMetadata>, name: Seq<char>, from: int) -> Option<int>
    decreases ms.len() - from,
{
    if from < 0 || from >= ms.len() {
        None
    } else if ms[from].name@ == name {
        Some(from)
    } else {
        module_from(ms, name, from + 1)
    }
}

/// Position of the first package at or after `from` that has a module
/// named `name`.
pub open spec fn package_from(ps: Seq<PackageMetadata>, name: Seq<char>, from: int) -> Option<int>
    decreases ps.len() - from,
{
    if from < 0 || from >= ps.len() {
        None
    } else if module_from(ps[from].modules@, name, 0) is Some {
        Some(from)
    } else {
        package_from(ps, name, from + 1)
    }
}

/// The module named `name` of the first package of `reg` that has one.
pub open spec fn registry_module(reg: PackageRegistry, name: Seq<char>) -> Option<ModuleMetadata> {
    match package_from(reg.packages@, name, 0) {
        None => None,
        Some(p) => match module_from(reg.packages@[p].modules@, name, 0) {
            None => None,
            Some(m) => Some(reg.packages@[p].modules@[m]),
        },
    }
}

fn find_module_in<'a>(ms: &'a Vec<ModuleMetadata>, name: &str) -> (r: Option<usize>)
    ensures
        r matches Some(i) ==> module_from(ms@, name@, 0) == Some(i as int) && i < ms@.len(),
        r is None ==> module_from(ms@, name@, 0) is None,
{
    let n = ms.len();
    let mut i: usize = 0;
    while i < n
        invariant
            n == ms@.len(),
            i <= n,
            module_from(ms@, name@, 0) == module_from(ms@, name@, i as int),
        decreases n - i,
    {
        if same_text(ms[i].name.as_str(), name) {
            return Some(i);
        }
        i = i + 1;
    }
    None
}

impl PackageRegistry {
    /// The first package that has a module named `module_name`.
    pub fn package_with_module(&self, module_name: &str) -> (r: Option<&PackageMetadata>)
        ensures
            r is None <==> package_from(self.packages@, module_name@, 0) is None,
            r matches Some(p) ==> package_from(self.packages@, module_name@, 0) matches Some(i)
                && *p == self.packages@[i],
    {
        let n = self.packages.len();
        let mut i: usize = 0;
        while i < n
            invariant
                n == self.packages@.len(),
                i <= n,
                package_from(self.packages@, module_name@, 0) == package_from(
                    self.packages@,
                    module_name@,
                    i as int,
                ),
            decreases n - i,
        {
            if find_module_in(&self.packages[i].modules, module_name).is_some() {
                return Some(&self.packages[i]);
            }
            i = i + 1;
        }
        None
    }

    /// The module named `module_name` of the first package that has one.
    pub fn find_module(&self, module_name: &str) -> (r: Option<&ModuleMetadata>)
        ensures
            r is None <==> registry_module(*self, module_name@) is None,
            r matches Some(m) ==> registry_module(*self, module_name@) == Some(*m),
    {
        match self.package_with_module(module_name) {
            None => None,
            Some(package) => match find_module_in(&package.modules, module_name) {
                None => None,
                Some(i) => Some(&package.modules[i]),
            },
        }
    }
}

/// The location that the registry of the caller's account gives for `ct`.
pub open spec fn registry_location(ct: InternalCallTrace, rs: Seq<(String, PackageRegistry)>) -> Option<
    LineColModel,
> {
    match entry_of(rs, account_part(ct.from_module_id@)) {
        None => None,
        Some(reg) => match registry_module(reg, module_part(ct.from_module_id@)) {
            None => None,
            Some(m) => spec_locate_zipped(m.source_map@, m.source@, ct.fdef_idx, ct.pc),
        },
    }
}

/// `r` is `ct` with every call of the tree located through the package
/// registries `rs`, children in call order.
pub open spec fn resolved_with_registries(
    ct: InternalCallTrace,
    r: CallTraceWithSource,
    rs: Seq<(String, PackageRegistry)>,
) -> bool
    decreases ct,
{
    &&& fields_projected(ct, r)
    &&& location_is(r.location, ct, registry_location(ct, rs))
    &&& r.calls@.len() == ct.sub_traces.0@.len()
    &&& forall|i: int|
        0 <= i < ct.sub_traces.0@.len() ==> resolved_with_registries(
            #[trigger] ct.sub_traces.0@[i],
            r.calls@[i],
            rs,
        )
}

impl CallTraceWithSource {
    /// Annotates the tree `call_trace` with locations from the package
    /// registries in `package_registries`, keyed by account. A call whose
    /// account has no registry, whose module is in none of its packages,
    /// whose source map or source is empty, or whose lookup fails gets no
    /// location; the rest of the tree is annotated all the same.
    pub fn from(
        call_trace: &InternalCallTrace,
        package_registries: &Vec<(String, PackageRegistry)>,
    ) -> (r: Self)
        ensures
            resolved_with_registries(*call_trace, r, package_registries@),
        decreases call_trace,
    {
        let children = &call_trace.sub_traces.0;
        let n = children.len();
        let mut calls: Vec<CallTraceWithSource> = Vec::new();
        let mut i: usize = 0;
        while i < n
            invariant
                n == children@.len(),
                children == &call_trace.sub_traces.0,
                i <= n,
                calls@.len() == i,
                forall|j: int|
                    0 <= j < i ==> resolved_with_registries(
                        #[trigger] children@[j],
                        calls@[j],
                        package_registries@,
                    ),
            decreases n - i,
        {
            proof {
                assert(decreases_to!(*call_trace => call_trace.sub_traces));
                assert(decreases_to!(call_trace.sub_traces => call_trace.sub_traces.0));
                assert(decreases_to!(call_trace.sub_traces.0 => call_trace.sub_traces.0@));
                assert(decreases_to!(call_trace.sub_traces.0@ => call_trace.sub_traces.0@[i as int]));
            }
            let child = Self::from(&children[i], package_registries);
            calls.push(child);
            i = i + 1;
        }
        let (account, module_name) = split_module_id(call_trace.from_module_id.as_str());
        let lines = match find_entry(package_registries, account.as_str()) {
            None => None,
            Some(registry) => match registry.find_module(module_name.as_str()) {
                None => None,
                Some(module) => locate_zipped(
                    module.source_map.as_slice(),
                    module.source.as_slice(),
                    call_trace.fdef_idx,
                    call_trace.pc,
                ),
            },
        };
        let location = location_of(call_trace, lines);
        project_node(call_trace, location, calls)
    }
}

/// (package name, account) for every package of every registry, in order.
pub open spec fn names_model(rs: Seq<(String, PackageRegistry)>) -> Seq<(Seq<char>, Seq<char>)>
    decreases rs.len(),
{
    if rs.len() == 0 {
        Seq::empty()
    } else {
        names_model(rs.drop_last()) + rs.last().1.packages@.map_values(
            |p: PackageMetadata| (p.name@, rs.last().0@),
        )
    }
}

/// The entries of a list of text pairs, as texts.
pub open spec fn pairs_model(es: Seq<(String, String)>) -> Seq<(Seq<char>, Seq<char>)> {
    es.map_values(|e: (String, String)| (e.0@, e.1@))
}

/// Builds the table from package name to the account that published it,
/// from the registries of the accounts of a trace. A later registry wins
/// for a name that two of them use.
pub fn package_names(registries: &Vec<(String, PackageRegistry)>) -> (r: Vec<(String, String)>)
    ensures
        pairs_model(r@) == names_model(registries@),
{
    let mut out: Vec<(String, String)> = Vec::new();
    let n = registries.len();
    let mut i: usize = 0;
    assert(registries@.subrange(0, 0) =~= Seq::<(String, PackageRegistry)>::empty());
    while i < n
        invariant
            n == registries@.len(),
            i <= n,
            pairs_model(out@) == names_model(registries@.subrange(0, i as int)),
        decreases n - i,
    {
        let account = &registries[i].0;
        let packages = &registries[i].1.packages;
        let m = packages.len();
        let mut j: usize = 0;
        let ghost base = out@;
        assert(packages@.subrange(0, 0).map_values(|p: PackageMetadata| (p.name@, account@))
            =~= Seq::<(Seq<char>, Seq<char>)>::empty());
        assert(pairs_model(base) + Seq::<(Seq<char>, Seq<char>)>::empty() =~= pairs_model(base));
        while j < m
            invariant
                m == packages@.len(),
                j <= m,
                pairs_model(out@) == pairs_model(base) + packages@.subrange(0, j as int).map_values(
                    |p: PackageMetadata| (p.name@, account@),
                ),
            decreases m - j,
        {
            let ghost before = out@;
            let name = packages[j].name.clone();
            let owner = account.clone();
            out.push((name, owner));
            assert(pairs_model(out@) =~= pairs_model(before).push((name@, owner@)));
            assert(packages@.subrange(0, j + 1).map_values(|p: PackageMetadata| (p.name@, account@))
                =~= packages@.subrange(0, j as int).map_values(
                |p: PackageMetadata| (p.name@, account@),
            ).push((name@, owner@)));
            j = j + 1;
        }
        proof {
            let rs = registries@.subrange(0, i + 1);
            assert(rs.drop_last() =~= registries@.subrange(0, i as int));
            assert(rs.last() == registries@[i as int]);
            assert(packages@.subrange(0, m as int) =~= packages@);
        }
        i = i + 1;
    }
    assert(registries@.subrange(0, n as int) =~= registries@);
    out
}

/// `account::name`.
pub open spec fn module_key(account: Seq<char>, name: Seq<char>) -> Seq<char> {
    account + seq![':', ':'] + name
}

/// The modules of a package published by `account`, each under its key.
pub open spec fn package_entries(account: Seq<char>, ms: Seq<ModuleCompilation>) -> Seq<
    (Seq<char>, ModuleCompilation),
> {
    ms.map_values(|m: ModuleCompilation| (module_key(account, m.name@), m))
}

/// The modules of the dependencies whose package name `names` knows, each
/// under the key of the account that published it.
pub open spec fn dependency_entries(
    deps: Seq<PackageCompilation>,
    names: Seq<(String, String)>,
) -> Seq<(Seq<char>, ModuleCompilation)>
    decreases deps.len(),
{
    if deps.len() == 0 {
        Seq::empty()
    } else {
        dependency_entries(deps.drop_last(), names) + match entry_of(names, deps.last().name@) {
            None => Seq::empty(),
            Some(account) => package_entries(account@, deps.last().modules@),
        }
    }
}

impl ModuleIndex {
    /// The entries, with their keys as texts.
    pub open spec fn model(&self) -> Seq<(Seq<char>, ModuleCompilation)> {
        self.entries@.map_values(|e: (String, ModuleCompilation)| (e.0@, e.1))
    }

    /// Records each module of `modules` under `account::name`, in order.
    fn insert_package(&mut self, account: &str, modules: Vec<ModuleCompilation>)
        ensures
            final(self).model() == old(self).model() + package_entries(account@, modules@),
    {
        let ghost all = modules@;
        let ghost base = self.model();
        let mut rest = modules;
        let n = rest.len();
        let mut k: usize = 0;
        proof {
            reveal_strlit("::");
            assert("::"@ =~= seq![':', ':']);
        }
        assert(all.subrange(0, 0) =~= Seq::<ModuleCompilation>::empty());
        assert(base + package_entries(account@, all.subrange(0, 0)) =~= base);
        while k < n
            invariant
                n == all.len(),
                k <= n,
                rest@ == all.subrange(k as int, n as int),
                self.model() == base + package_entries(account@, all.subrange(0, k as int)),
                "::"@ == seq![':', ':'],
            decreases n - k,
        {
            let module = rest.remove(0);
            let mut key = account.to_owned();
            key.append("::");
            key.append(module.name.as_str());
            let ghost before = self.model();
            self.insert(key, module);
            proof {
                assert(module == all[k as int]);
                assert(all.subrange(0, k + 1) =~= all.subrange(0, k as int).push(module));
                assert(self.model() =~= before.push((module_key(account@, module.name@), module)));
                assert(package_entries(account@, all.subrange(0, k + 1)) =~= package_entries(
                    account@,
                    all.subrange(0, k as int),
                ).push((module_key(account@, module.name@), module)));
                assert(rest@ =~= all.subrange(k + 1, n as int));
            }
            k = k + 1;
        }
        assert(all.subrange(0, n as int) =~= all);
    }
}

/// What indexing a compilation response gives: the modules of the package
/// under `account`, then those of each dependency under the account that
/// `names` gives for its package name (dependencies it does not know are
/// left out).
pub open spec fn response_entries(
    account: Seq<char>,
    response: PackageCompilation,
    names: Seq<(String, String)>,
) -> Seq<(Seq<char>, ModuleCompilation)> {
    package_entries(account, response.modules@) + match response.dependencies {
        None => Seq::empty(),
        Some(deps) => dependency_entries(deps@, names),
    }
}

/// Indexes the modules of a compilation response for the package that
/// `account` published, and those of its dependencies.
pub fn index_compile_response(
    account: &str,
    response: PackageCompilation,
    package_names: &Vec<(String, String)>,
) -> (r: ModuleIndex)
    ensures
        r.model() == response_entries(account@, response, package_names@),
{
    let mut index = ModuleIndex::new();
    assert(index.model() =~= Seq::<(Seq<char>, ModuleCompilation)>::empty());
    index.insert_package(account, response.modules);
    match response.dependencies {
        None => {
            assert(index.model() =~= response_entries(account@, response, package_names@));
        },
        Some(deps) => {
            let ghost all = deps@;
            let ghost base = index.model();
            let mut rest = deps;
            let n = rest.len();
            let mut k: usize = 0;
            assert(all.subrange(0, 0) =~= Seq::<PackageCompilation>::empty());
            assert(base + dependency_entries(all.subrange(0, 0), package_names@) =~= base);
            while k < n
                invariant
                    n == all.len(),
                    k <= n,
                    rest@ == all.subrange(k as int, n as int),
                    index.model() == base + dependency_entries(
                        all.subrange(0, k as int),
                        package_names@,
                    ),
                decreases n - k,
            {
                let dependency = rest.remove(0);
                let ghost before = index.model();
                proof {
                    assert(dependency == all[k as int]);
                    assert(all.subrange(0, k + 1).drop_last() =~= all.subrange(0, k as int));
                    assert(rest@ =~= all.subrange(k + 1, n as int));
                }
                match find_entry(package_names, dependency.name.as_str()) {
                    None => {
                        assert(before =~= before + Seq::<(Seq<char>, ModuleCompilation)>::empty());
                    },
                    Some(owner) => {
                        index.insert_package(owner.as_str(), dependency.modules);
                    },
                }
                assert(index.model() =~= base + dependency_entries(
                    all.subrange(0, k + 1),
                    package_names@,
                ));
                k = k + 1;
            }
            assert(all.subrange(0, n as int) =~= all);
        },
    }
    index
}

/// Takes the finished tree out of `call_traces` and annotates it with the
/// compiled modules of `modules_map`; `None` when no frame is left.
pub fn resolve_root(call_traces: &mut CallTraces, modules_map: &ModuleIndex) -> (r: Option<
    CallTraceWithSource,
>)
    ensures
        final(call_traces).frames() == pop_frames(old(call_traces).frames()).0,
        r is Some <==> old(call_traces).frames().len() > 0,
        r matches Some(t) ==> resolved_with_modules(
            old(call_traces).frames().last(),
            t,
            modules_map.entries@,
        ),
{
    match call_traces.root() {
        None => None,
        Some(root) => Some(CallTraceWithSource::from_modules(&root, modules_map)),
    }
}

/// `hash` without a leading `0x`.
pub open spec fn hash_digits(hash: Seq<char>) -> Seq<char> {
    if hash.len() >= 2 && hash[0] == '0' && hash[1] == 'x' {
        hash.subrange(2, hash.len() as int)
    } else {
        hash
    }
}

/// A transaction hash as the ledger takes it: without a leading `0x`.
pub fn trim_hash_prefix(hash: &str) -> (r: String)
    ensures
        r@ == hash_digits(hash@),
{
    let n = hash.unicode_len();
    if n >= 2 && hash.get_char(0) == '0' && hash.get_char(1) == 'x' {
        hash.substring_char(2, n).to_owned()
    } else {
        hash.to_owned()
    }
}

/// A module whose source text is empty is never looked up: its calls get no
/// location, whatever its source map holds.
pub proof fn lemma_empty_source_unresolved(
    source_map: Seq<char>,
    zipped_map: Seq<u8>,
    fdef: u16,
    pc: u16,
)
    ensures
        spec_locate_hex(source_map, Seq::empty(), fdef, pc) is None,
        spec_locate_zipped(zipped_map, Seq::empty(), fdef, pc) is None,
{
}

} // verus!
