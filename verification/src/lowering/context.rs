//! What resolution reads besides the module being resolved: the packages,
//! definitions and usages of the context modules, indexed by name, and the
//! indexes over the library.
use vstd::prelude::*;

use crate::kerml::ast::{ParsedModule, strings_view};
use crate::kerml::token::Diagnostic;
use crate::lowering::bundle::MappingBundle;
use crate::lowering::collect::{CollectedDefinition, CollectedDefinitionView, CollectedUsage};
use crate::lowering::collect_walk::{collect_modules, modules_out, package_record};
use crate::lowering::indexes::{
    build_local_definition_map, build_local_feature_index, build_local_usage_map, last_feature, last_usage_named,
    local_definition_target, module_usages, owns_usage, scope_of, usage_lookup,
};
use crate::lowering::ir::ResolvedPackage;
use crate::lowering::library::{
    LibraryElement, build_stdlib_alias_map, build_stdlib_feature_index, library_alias, library_direct,
};
use crate::strmap::{StrMap, has_key, lookup, str_lookup};
use crate::text::owned;

verus! {

/// The indexes over the library: its element ids in order, the features of
/// each owner, and its aliases.
pub struct LibraryIndexes {
    pub ids: Vec<String>,
    pub feature_index: StrMap<StrMap<String>>,
    pub aliases: StrMap<String>,
}

/// The indexes over the library's elements.
pub fn library_indexes(library: &[LibraryElement], mappings: &MappingBundle) -> (r: LibraryIndexes)
    ensures
        strings_view(r.ids@) == library@.map_values(|e: LibraryElement| e.id@),
        forall|k: Seq<char>| #[trigger] str_lookup(r.aliases@, k) == library_alias(mappings@.stdlib_aliases, library@, k),
        forall|i: int| 0 <= i < library@.len() ==> #[trigger] lookup(r.feature_index@, library@[i].id@) is Some,
        forall|i: int, n: Seq<char>|
            0 <= i < library@.len() && #[trigger] library_direct(library@, library@[i].id@, n) is Some ==> str_lookup(
                lookup(r.feature_index@, library@[i].id@)->Some_0@,
                n,
            ) == library_direct(library@, library@[i].id@, n),
{
    let mut ids: Vec<String> = Vec::new();
    let mut i: usize = 0;
    while i < library.len()
        invariant
            i <= library@.len(),
            strings_view(ids@) == library@.take(i as int).map_values(|e: LibraryElement| e.id@),
        decreases library@.len() - i,
    {
        let ghost before = ids@;
        ids.push(owned(library[i].id.as_str()));
        proof {
            assert(strings_view(ids@) =~= strings_view(before).push(library@[i as int].id@));
            assert(library@.take(i + 1) =~= library@.take(i as int).push(library@[i as int]));
            assert(strings_view(ids@) =~= library@.take(i + 1).map_values(|e: LibraryElement| e.id@));
        }
        i = i + 1;
    }
    proof {
        assert(library@.take(library@.len() as int) =~= library@);
    }
    LibraryIndexes {
        ids,
        feature_index: build_stdlib_feature_index(library, mappings),
        aliases: build_stdlib_alias_map(library, mappings),
    }
}

/// The last of `defs` with qualified name `k`.
pub open spec fn last_definition_named(defs: Seq<CollectedDefinition>, k: Seq<char>) -> Option<CollectedDefinitionView>
    decreases defs.len(),
{
    if defs.len() == 0 {
        None
    } else if defs.last().qualified_name@ == k {
        Some(defs.last()@)
    } else {
        last_definition_named(defs.drop_last(), k)
    }
}

/// The view of the definition that `s` maps `k` to.
pub open spec fn definition_lookup(s: Seq<(Seq<char>, CollectedDefinition)>, k: Seq<char>) -> Option<CollectedDefinitionView> {
    match lookup(s, k) {
        Some(d) => Some(d@),
        None => None,
    }
}

/// The definitions by qualified name; a later one replaces an earlier one.
pub fn build_definition_index(definitions: &[CollectedDefinition]) -> (r: StrMap<CollectedDefinition>)
    ensures
        forall|k: Seq<char>| #[trigger] definition_lookup(r@, k) == last_definition_named(definitions@, k),
{
    let mut index: StrMap<CollectedDefinition> = StrMap::new();
    let mut i: usize = 0;
    while i < definitions.len()
        invariant
            i <= definitions@.len(),
            forall|k: Seq<char>| #[trigger] definition_lookup(index@, k) == last_definition_named(
                definitions@.take(i as int),
                k,
            ),
        decreases definitions@.len() - i,
    {
        let ghost before = index@;
        let d = definitions[i].duplicate();
        index.insert(owned(definitions[i].qualified_name.as_str()), d);
        proof {
            let t = definitions@.take(i + 1);
            assert(t.drop_last() =~= definitions@.take(i as int));
            assert(t.last() == definitions@[i as int]);
            assert forall|k: Seq<char>| #[trigger] definition_lookup(index@, k) == last_definition_named(t, k) by {
                assert(definition_lookup(before, k) == last_definition_named(definitions@.take(i as int), k));
            }
        }
        i = i + 1;
    }
    proof {
        assert(definitions@.take(definitions@.len() as int) =~= definitions@);
    }
    index
}

/// The context resolution reads: the packages, definitions and usages of
/// the context modules, indexed by name, and the library indexes.
pub struct ResolverContext {
    pub module_count: usize,
    pub packages: Vec<ResolvedPackage>,
    pub definitions: Vec<CollectedDefinition>,
    pub usages: Vec<CollectedUsage>,
    pub local_definitions: StrMap<String>,
    pub definition_index: StrMap<CollectedDefinition>,
    pub local_feature_index: StrMap<StrMap<String>>,
    pub local_usage_map: StrMap<CollectedUsage>,
    pub library_indexes: LibraryIndexes,
}

impl ResolverContext {
    /// How many modules the context was built from.
    pub fn module_count(&self) -> (r: usize)
        ensures
            r == self.module_count,
    {
        self.module_count
    }

    /// The context of `context_modules` over `library`: what the modules
    /// collect, indexed by name, and the library's indexes.
    pub fn from_modules(
        context_modules: &[ParsedModule],
        library: &[LibraryElement],
        mappings: &MappingBundle,
    ) -> (r: Result<ResolverContext, Diagnostic>)
        ensures
            match modules_out(context_modules@, mappings@, context_modules@.len() as int) {
                Err(e) => r matches Err(d) && d.message@ == e,
                Ok(o) => r matches Ok(c) && {
                    &&& c.module_count == context_modules@.len()
                    &&& c.packages@.map_values(|p: ResolvedPackage| package_record(p)) == o.packages
                    &&& c.definitions@.map_values(|d: CollectedDefinition| d@) == o.definitions
                    &&& crate::lowering::collect::cusages_view(c.usages@) == o.usages
                    &&& forall|k: Seq<char>| #[trigger] str_lookup(c.local_definitions@, k)
                        == local_definition_target(c.definitions@, mappings@, k)
                    &&& forall|k: Seq<char>| #[trigger] definition_lookup(c.definition_index@, k)
                        == last_definition_named(c.definitions@, k)
                    &&& forall|owner: Seq<char>| #[trigger] has_key(c.local_feature_index@, owner)
                        == owns_usage(module_usages(c.definitions@, c.usages@), owner)
                    &&& forall|owner: Seq<char>, name: Seq<char>| #[trigger]
                        str_lookup(scope_of(c.local_feature_index@, owner), name) == last_feature(
                            module_usages(c.definitions@, c.usages@),
                            owner,
                            name,
                        )
                    &&& forall|k: Seq<char>| #[trigger] usage_lookup(c.local_usage_map@, k) == last_usage_named(
                        module_usages(c.definitions@, c.usages@),
                        k,
                    )
                    &&& strings_view(c.library_indexes.ids@) == library@.map_values(|e: LibraryElement| e.id@)
                    &&& forall|k: Seq<char>| #[trigger] str_lookup(c.library_indexes.aliases@, k) == library_alias(
                        mappings@.stdlib_aliases,
                        library@,
                        k,
                    )
                    &&& forall|i: int|
                        0 <= i < library@.len() ==> #[trigger] lookup(c.library_indexes.feature_index@, library@[i].id@)
                            is Some
                    &&& forall|i: int, n: Seq<char>|
                        0 <= i < library@.len() && #[trigger] library_direct(library@, library@[i].id@, n) is Some
                            ==> str_lookup(lookup(c.library_indexes.feature_index@, library@[i].id@)->Some_0@, n)
                            == library_direct(library@, library@[i].id@, n)
                },
            },
    {
        let collected = match collect_modules(context_modules, mappings) {
            Ok(c) => c,
            Err(d) => {
                return Err(d);
            },
        };
        let local_definitions = match build_local_definition_map(collected.definitions.as_slice(), mappings) {
            Ok(m) => m,
            Err(d) => {
                return Err(d);
            },
        };
        let definition_index = build_definition_index(collected.definitions.as_slice());
        let local_feature_index = build_local_feature_index(collected.definitions.as_slice(), &collected.usages);
        let local_usage_map = build_local_usage_map(collected.definitions.as_slice(), &collected.usages);
        let library_indexes = library_indexes(library, mappings);
        Ok(
            ResolverContext {
                module_count: context_modules.len(),
                packages: collected.packages,
                definitions: collected.definitions,
                usages: collected.usages,
                local_definitions,
                definition_index,
                local_feature_index,
                local_usage_map,
                library_indexes,
            },
        )
    }
}

} // verus!
