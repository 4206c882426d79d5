//! The schema registry: a name-keyed store of registered schema documents
//! and their compiled forms, the unit of lifecycle management.

use vstd::prelude::*;
use crate::compile::{CompiledSchema, compile};
use crate::engine::{full_diagnostic, boolean_fastpath};
use crate::semantics::{schema_issues, schema_valid};
use crate::types::{ValidationResult, JsonSchemaTarget};
use crate::value::{JsonValue, JsonView, json_view, str_eq, deep_clone_value};

verus! {

/// Why a registry call failed.
#[derive(Debug, Clone, Copy, PartialEq, Eq, Structural)]
pub enum RegistryError {
    /// No schema is registered under the requested name.
    SchemaNotFound,
}

struct RegistryEntry {
    name: String,
    doc: JsonValue,
    compiled: CompiledSchema,
}

/// The documents a list of entries holds, by name.
spec fn entries_map(s: Seq<RegistryEntry>) -> Map<Seq<char>, JsonView>
    decreases s.len(),
{
    if s.len() == 0 {
        Map::empty()
    } else {
        entries_map(s.drop_last()).insert(s.last().name@, json_view(s.last().doc))
    }
}

/// A registry for named schemas.  Registering compiles at once; validation
/// calls only look the compiled form up and walk it.
pub struct SchemaRegistry {
    entries: Vec<RegistryEntry>,
}

impl View for SchemaRegistry {
    type V = Map<Seq<char>, JsonView>;

    closed spec fn view(&self) -> Map<Seq<char>, JsonView> {
        entries_map(self.entries@)
    }
}

impl SchemaRegistry {
    /// Every entry's compiled form is the compilation of its document, and
    /// names are never repeated.
    #[verifier::type_invariant]
    spec fn wf(self) -> bool {
        &&& forall|i: int| 0 <= i < self.entries@.len()
            ==> (#[trigger] self.entries@[i]).compiled.spec_source()
            == json_view(self.entries@[i].doc)
        &&& forall|i: int, j: int| 0 <= i < j < self.entries@.len()
            ==> (#[trigger] self.entries@[i]).name@ != (#[trigger] self.entries@[j]).name@
    }

    /// Creates a new empty schema registry.
    pub fn new() -> (r: SchemaRegistry)
        ensures
            r@ == Map::<Seq<char>, JsonView>::empty(),
    {
        SchemaRegistry { entries: Vec::new() }
    }

    /// The position of the entry with the given name, if any.
    fn find(&self, name: &str) -> (r: Option<usize>)
        ensures
            match r {
                Option::Some(i) => {
                    &&& 0 <= i < self.entries@.len()
                    &&& self.entries@[i as int].name@ == name@
                    &&& forall|k: int| 0 <= k < self.entries@.len() && k != i
                        ==> (#[trigger] self.entries@[k]).name@ != name@
                    &&& self@.contains_key(name@)
                    &&& self@[name@] == json_view(self.entries@[i as int].doc)
                },
                Option::None => {
                    &&& !self@.contains_key(name@)
                    &&& forall|k: int| 0 <= k < self.entries@.len()
                        ==> (#[trigger] self.entries@[k]).name@ != name@
                },
            },
    {
        proof {
            use_type_invariant(self);
        }
        let mut i: usize = 0;
        while i < self.entries.len()
            invariant
                self.wf(),
                0 <= i <= self.entries@.len(),
                forall|k: int| 0 <= k < i ==> (#[trigger] self.entries@[k]).name@ != name@,
            decreases self.entries@.len() - i,
        {
            if str_eq(self.entries[i].name.as_str(), name) {
                proof {
                    lemma_entries_map_at(self.entries@, i as int);
                }
                return Option::Some(i);
            }
            i = i + 1;
        }
        proof {
            lemma_entries_map_absent(self.entries@, name@);
        }
        Option::None
    }

    /// Registers a schema document under a name, compiling it at once; a
    /// prior entry under the same name is replaced whole.
    pub fn register(&mut self, name: &str, schema: JsonValue)
        ensures
            final(self)@ == old(self)@.insert(name@, schema@),
    {
        proof {
            use_type_invariant(&*self);
        }
        let compiled = compile(&schema);
        let found = self.find(name);
        let mut entries: Vec<RegistryEntry> = Vec::new();
        core::mem::swap(&mut entries, &mut self.entries);
        match found {
            Option::Some(i) => {
                let ghost pre = entries@;
                entries.remove(i);
                proof {
                    lemma_entries_map_remove(pre, i as int);
                }
            },
            Option::None => {},
        }
        let ghost mid = entries@;
        entries.push(RegistryEntry { name: name.to_owned(), doc: schema, compiled });
        proof {
            assert(entries@.drop_last() =~= mid);
            assert(forall|k: int| 0 <= k < mid.len() ==> (#[trigger] mid[k]).name@ != name@);
            assert(forall|k: int| 0 <= k < mid.len() ==> entries@[k] == mid[k]);
        }
        self.entries = entries;
    }

    /// Removes the entry under the name; reports whether one was there.
    pub fn unregister(&mut self, name: &str) -> (r: bool)
        ensures
            r == old(self)@.contains_key(name@),
            final(self)@ == old(self)@.remove(name@),
    {
        proof {
            use_type_invariant(&*self);
        }
        match self.find(name) {
            Option::Some(i) => {
                let mut entries: Vec<RegistryEntry> = Vec::new();
                core::mem::swap(&mut entries, &mut self.entries);
                let ghost pre = entries@;
                entries.remove(i);
                proof {
                    lemma_entries_map_remove(pre, i as int);
                    assert(entries_map(entries@) =~= old(self)@.remove(name@));
                }
                self.entries = entries;
                true
            },
            Option::None => {
                proof {
                    assert(entries_map(self.entries@) =~= old(self)@.remove(name@));
                }
                false
            },
        }
    }

    /// Whether a schema is registered under the name.
    pub fn has_schema(&self, name: &str) -> (r: bool)
        ensures
            r == self@.contains_key(name@),
    {
        match self.find(name) {
            Option::Some(_) => true,
            Option::None => false,
        }
    }

    /// The registered names, one each, in no promised order.
    pub fn list_schemas(&self) -> (r: Vec<String>)
        ensures
            r@.map_values(|s: String| s@).to_set() == self@.dom(),
            r@.len() == self@.dom().len(),
    {
        proof {
            use_type_invariant(self);
        }
        let mut out: Vec<String> = Vec::new();
        let mut i: usize = 0;
        while i < self.entries.len()
            invariant
                0 <= i <= self.entries@.len(),
                out@.len() == i,
                forall|k: int| 0 <= k < i ==> (#[trigger] out@[k])@ == self.entries@[k].name@,
            decreases self.entries@.len() - i,
        {
            out.push(self.entries[i].name.clone());
            i = i + 1;
        }
        proof {
            use_type_invariant(self);
            lemma_entries_map_names(self.entries@);
            assert(out@.map_values(|s: String| s@) =~= self.entries@.map_values(
                |e: RegistryEntry| e.name@,
            ));
        }
        out
    }

    /// Validates a value against the named schema with the full-diagnostic
    /// engine.  A name never registered is answered with an error, never a
    /// silent success.
    pub fn validate(&self, name: &str, value: &JsonValue) -> (r: Result<
        ValidationResult<JsonValue>,
        RegistryError,
    >)
        ensures
            r is Ok <==> self@.contains_key(name@),
            r matches Ok(res) ==> {
                &&& res.spec_issues() == schema_issues(self@[name@], value@)
                &&& res.spec_is_success() == schema_valid(self@[name@], value@)
                &&& (res matches ValidationResult::Success(out) ==> out@ == value@)
            },
            r matches Err(e) ==> e == RegistryError::SchemaNotFound,
    {
        proof {
            use_type_invariant(self);
        }
        match self.find(name) {
            Option::Some(i) => {
                Result::Ok(full_diagnostic(&self.entries[i].compiled, value))
            },
            Option::None => Result::Err(RegistryError::SchemaNotFound),
        }
    }

    /// Validates a value against the named schema with the boolean
    /// fast-path engine.
    pub fn validate_fast(&self, name: &str, value: &JsonValue) -> (r: Result<
        bool,
        RegistryError,
    >)
        ensures
            r is Ok <==> self@.contains_key(name@),
            r matches Ok(valid) ==> valid == schema_valid(self@[name@], value@),
            r matches Err(e) ==> e == RegistryError::SchemaNotFound,
    {
        proof {
            use_type_invariant(self);
        }
        match self.find(name) {
            Option::Some(i) => {
                Result::Ok(boolean_fastpath(&self.entries[i].compiled, value))
            },
            Option::None => Result::Err(RegistryError::SchemaNotFound),
        }
    }

    /// The original, uncompiled schema document under the name, augmented
    /// with the target's schema-identifier field where the target defines
    /// one.
    pub fn json_schema(&self, name: &str, target: JsonSchemaTarget) -> (r: Result<
        JsonValue,
        RegistryError,
    >)
        ensures
            r is Ok <==> self@.contains_key(name@),
            r matches Ok(doc) ==> doc@ == crate::fragments::with_schema_uri(
                self@[name@],
                target,
            ),
            r matches Err(e) ==> e == RegistryError::SchemaNotFound,
    {
        proof {
            use_type_invariant(self);
        }
        match self.find(name) {
            Option::Some(i) => {
                let mut doc = deep_clone_value(&self.entries[i].doc);
                crate::fragments::add_schema_uri(&mut doc, target);
                Result::Ok(doc)
            },
            Option::None => Result::Err(RegistryError::SchemaNotFound),
        }
    }
}

impl Default for SchemaRegistry {
    /// An empty registry.
    fn default() -> (r: Self)
        ensures
            r@ == Map::<Seq<char>, JsonView>::empty(),
    {
        SchemaRegistry::new()
    }
}

proof fn lemma_entries_map_at(s: Seq<RegistryEntry>, i: int)
    requires
        0 <= i < s.len(),
        forall|a: int, b: int| 0 <= a < b < s.len() ==> (#[trigger] s[a]).name@
            != (#[trigger] s[b]).name@,
    ensures
        entries_map(s).contains_key(s[i].name@),
        entries_map(s)[s[i].name@] == json_view(s[i].doc),
    decreases s.len(),
{
    if i < s.len() - 1 {
        lemma_entries_map_at(s.drop_last(), i);
        assert(s.drop_last()[i] == s[i]);
        assert(s[i].name@ != s.last().name@);
    }
}

proof fn lemma_entries_map_absent(s: Seq<RegistryEntry>, name: Seq<char>)
    requires
        forall|k: int| 0 <= k < s.len() ==> (#[trigger] s[k]).name@ != name,
    ensures
        !entries_map(s).contains_key(name),
    decreases s.len(),
{
    if s.len() > 0 {
        lemma_entries_map_absent(s.drop_last(), name);
    }
}

proof fn lemma_entries_map_remove(s: Seq<RegistryEntry>, i: int)
    requires
        0 <= i < s.len(),
        forall|a: int, b: int| 0 <= a < b < s.len() ==> (#[trigger] s[a]).name@
            != (#[trigger] s[b]).name@,
    ensures
        entries_map(s.remove(i)) =~= entries_map(s).remove(s[i].name@),
    decreases s.len(),
{
    if i == s.len() - 1 {
        assert(s.remove(i) =~= s.drop_last());
        lemma_entries_map_absent(s.drop_last(), s[i].name@);
        assert(entries_map(s.drop_last()) =~= entries_map(s).remove(s[i].name@));
    } else {
        lemma_entries_map_remove(s.drop_last(), i);
        assert(s.remove(i).drop_last() =~= s.drop_last().remove(i));
        assert(s.remove(i).last() == s.last());
        assert(s[i].name@ != s.last().name@);
    }
}

proof fn lemma_entries_map_names(s: Seq<RegistryEntry>)
    requires
        forall|a: int, b: int| 0 <= a < b < s.len() ==> (#[trigger] s[a]).name@
            != (#[trigger] s[b]).name@,
    ensures
        entries_map(s).dom() =~= s.map_values(|e: RegistryEntry| e.name@).to_set(),
        entries_map(s).dom().len() == s.len(),
    decreases s.len(),
{
    if s.len() > 0 {
        lemma_entries_map_names(s.drop_last());
        assert(s.map_values(|e: RegistryEntry| e.name@).drop_last() =~= s.drop_last().map_values(
            |e: RegistryEntry| e.name@,
        ));
        assert(s.map_values(|e: RegistryEntry| e.name@) =~= s.drop_last().map_values(
            |e: RegistryEntry| e.name@,
        ).push(s.last().name@));
        lemma_entries_map_absent(s.drop_last(), s.last().name@);
        broadcast use vstd::seq_lib::group_seq_properties;
        assert(s.map_values(|e: RegistryEntry| e.name@).to_set() =~= s.drop_last().map_values(
            |e: RegistryEntry| e.name@,
        ).to_set().insert(s.last().name@));
        assert(!entries_map(s.drop_last()).dom().contains(s.last().name@));
    }
}

} // verus!
