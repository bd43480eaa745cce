//! The registry of IFC schema definitions, keyed by upper-case schema name,
//! and the schema modules that register themselves in it.
use crate::text::{chars_of, push_str, string_from_chars, to_ascii_upper, upper};
use vstd::prelude::*;

pub mod ifc2x3;
pub mod ifc4;
pub mod ifc4x1;
pub mod ifc4x2;
pub mod ifc4x3_rc1;
pub mod ifc4x3_rc2;
pub mod ifc4x3_rc3;
pub mod ifc4x3_rc4;
pub mod ifc4x3;
pub mod ifc4x3_tc1;
pub mod ifc4x3_add1;
pub mod ifc4x3_add2;

verus! {

/// An error met reading IFC data or looking a schema up, with its message.
#[derive(Debug)]
pub struct IfcException(pub String);

/// A schema definition: its name and the names of its declarations.
#[derive(Debug)]
pub struct SchemaDefinition {
    name: String,
    declarations: Vec<String>,
}

/// Observable contents of a schema definition.
pub struct SchemaDefinitionView {
    pub name: Seq<char>,
    pub declarations: Seq<Seq<char>>,
}

impl View for SchemaDefinition {
    type V = SchemaDefinitionView;

    closed spec fn view(&self) -> SchemaDefinitionView {
        SchemaDefinitionView { name: self.name@, declarations: self.declarations.deep_view() }
    }
}

impl SchemaDefinition {
    /// A schema definition that is not registered anywhere.
    pub(crate) fn unregistered(name: &str, declarations: Vec<String>) -> (r: Self)
        ensures
            r@.name == name@,
            stably_sorted_by_upper(r@.declarations, declarations.deep_view()),
            r@.declarations.len() == declarations@.len(),
    {
        SchemaDefinition { name: name.to_owned(), declarations: sort_by_upper(declarations) }
    }

    /// A schema definition, its declarations put in order of their
    /// upper-case names (those with the same upper-case name keep their
    /// order), registered under its upper-case name.
    pub fn new(reg: &mut SchemaRegistry, name: &str, declarations: Vec<String>) -> (r: Self)
        requires
            old(reg).wf(),
        ensures
            final(reg).wf(),
            r@.name == name@,
            stably_sorted_by_upper(r@.declarations, declarations.deep_view()),
            final(reg)@ == old(reg)@.insert(upper(name@), r@),
    {
        let sd = SchemaDefinition::unregistered(name, declarations);
        register_schema(reg, sd.copy());
        sd
    }

    pub fn name(&self) -> (r: &str)
        ensures
            r@ == self@.name,
    {
        self.name.as_str()
    }

    pub fn declarations(&self) -> (r: &Vec<String>)
        ensures
            r.deep_view() == self@.declarations,
    {
        &self.declarations
    }

    /// An equal schema definition.
    pub fn copy(&self) -> (r: Self)
        ensures
            r@ == self@,
    {
        let mut decls: Vec<String> = Vec::new();
        let mut i: usize = 0;
        while i < self.declarations.len()
            invariant
                i <= self.declarations@.len(),
                decls.deep_view() == self.declarations.deep_view().subrange(0, i as int),
            decreases self.declarations@.len() - i,
        {
            let ghost before = decls.deep_view();
            let d = self.declarations[i].clone();
            assert(d@ == self.declarations.deep_view()[i as int]);
            decls.push(d);
            assert(decls.deep_view() =~= before.push(d@));
            i = i + 1;
            assert(decls.deep_view() =~= self.declarations.deep_view().subrange(0, i as int));
        }
        assert(self.declarations.deep_view().subrange(0, i as int) =~= self.declarations.deep_view());
        SchemaDefinition { name: self.name.clone(), declarations: decls }
    }
}

/// The registered schema definitions, each under the upper case of its name.
pub struct SchemaRegistry {
    entries: Vec<(String, SchemaDefinition)>,
}

impl View for SchemaRegistry {
    type V = Map<Seq<char>, SchemaDefinitionView>;

    closed spec fn view(&self) -> Map<Seq<char>, SchemaDefinitionView> {
        Map::new(
            |k: Seq<char>| exists|i: int| 0 <= i < self.entries@.len() && self.entries@[i].0@ == k,
            |k: Seq<char>|
                self.entries@[choose|i: int|
                    0 <= i < self.entries@.len() && self.entries@[i].0@ == k].1@,
        )
    }
}

impl SchemaRegistry {
    /// No two entries share a key, and every key is its own upper case.
    pub closed spec fn wf(&self) -> bool {
        &&& forall|i: int, j: int|
            0 <= i < self.entries@.len() && 0 <= j < self.entries@.len() && i != j
                ==> self.entries@[i].0@ != self.entries@[j].0@
        &&& forall|i: int| 0 <= i < self.entries@.len() ==> upper(#[trigger] self.entries@[i].0@) == self.entries@[i].0@
    }

    /// Every registered name is its own upper case.
    pub proof fn lemma_keys_upper(&self)
        requires
            self.wf(),
        ensures
            forall|k: Seq<char>| #[trigger] self@.contains_key(k) ==> upper(k) == k,
    {
        assert forall|k: Seq<char>| #[trigger] self@.contains_key(k) implies upper(k) == k by {
            let j = choose|j: int| 0 <= j < self.entries@.len() && self.entries@[j].0@ == k;
            assert(upper(self.entries@[j].0@) == self.entries@[j].0@);
        }
    }

    /// The entry at `i` holds `k`.
    proof fn lemma_entry(&self, i: int)
        requires
            self.wf(),
            0 <= i < self.entries@.len(),
        ensures
            self@.contains_key(self.entries@[i].0@),
            self@[self.entries@[i].0@] == self.entries@[i].1@,
    {
        let k = self.entries@[i].0@;
        assert(self@.dom().contains(k));
        let j = choose|j: int| 0 <= j < self.entries@.len() && self.entries@[j].0@ == k;
        assert(j == i);
    }

    pub fn new() -> (r: Self)
        ensures
            r.wf(),
            r@ == Map::<Seq<char>, SchemaDefinitionView>::empty(),
    {
        let r = SchemaRegistry { entries: Vec::new() };
        assert(r@ =~= Map::<Seq<char>, SchemaDefinitionView>::empty());
        r
    }

    /// Position of the entry with key `key`.
    fn find(&self, key: &String) -> (r: Option<usize>)
        requires
            self.wf(),
        ensures
            r matches Some(i) ==> i < self.entries@.len() && self.entries@[i as int].0@ == key@,
            r is None ==> !self@.contains_key(key@),
    {
        let mut i: usize = 0;
        while i < self.entries.len()
            invariant
                i <= self.entries@.len(),
                forall|j: int| 0 <= j < i ==> self.entries@[j].0@ != key@,
            decreases self.entries@.len() - i,
        {
            if self.entries[i].0 == *key {
                return Some(i);
            }
            i = i + 1;
        }
        None
    }

    /// The registered names, each once.
    pub fn keys(&self) -> (r: Vec<String>)
        requires
            self.wf(),
        ensures
            r@.len() == self@.dom().len(),
            forall|k: Seq<char>| self@.contains_key(k) <==> exists|i: int| 0 <= i < r@.len() && #[trigger] r@[i]@ == k,
            forall|i: int, j: int| 0 <= i < r@.len() && 0 <= j < r@.len() && i != j ==> r@[i]@ != r@[j]@,
    {
        let mut out: Vec<String> = Vec::new();
        let mut i: usize = 0;
        while i < self.entries.len()
            invariant
                i <= self.entries@.len(),
                self.wf(),
                out@.len() == i,
                forall|j: int| 0 <= j < i ==> #[trigger] out@[j]@ == self.entries@[j].0@,
            decreases self.entries@.len() - i,
        {
            out.push(self.entries[i].0.clone());
            i = i + 1;
        }
        proof {
            assert forall|k: Seq<char>| self@.contains_key(k) <==> exists|i: int|
                0 <= i < out@.len() && #[trigger] out@[i]@ == k by {
                if self@.contains_key(k) {
                    let j = choose|j: int| 0 <= j < self.entries@.len() && self.entries@[j].0@ == k;
                    assert(out@[j]@ == k);
                }
            }
            let keyseq = out@.map_values(|s: String| s@);
            assert forall|a: int, b: int| 0 <= a < keyseq.len() && 0 <= b < keyseq.len() && a != b implies keyseq[a] != keyseq[b] by {
                assert(out@[a]@ == self.entries@[a].0@);
                assert(out@[b]@ == self.entries@[b].0@);
            }
            keyseq.unique_seq_to_set();
            assert(keyseq.to_set() =~= self@.dom()) by {
                assert forall|k: Seq<char>| keyseq.to_set().contains(k) <==> self@.dom().contains(k) by {
                    if keyseq.to_set().contains(k) {
                        let a = choose|a: int| 0 <= a < keyseq.len() && keyseq[a] == k;
                        assert(out@[a]@ == k);
                    }
                    if self@.dom().contains(k) {
                        let j = choose|j: int| 0 <= j < out@.len() && out@[j]@ == k;
                        assert(keyseq[j] == k);
                    }
                }
            }
        }
        out
    }

    /// Registers `schema` under key `key`, replacing what was there.
    fn insert(&mut self, key: String, schema: SchemaDefinition)
        requires
            old(self).wf(),
            upper(key@) == key@,
        ensures
            final(self).wf(),
            final(self)@ == old(self)@.insert(key@, schema@),
    {
        let ghost sv = schema@;
        match self.find(&key) {
            Some(i) => {
                let ghost k = key@;
                self.entries.set(i, (key, schema));
                assert(self@ =~= old(self)@.insert(k, sv)) by {
                    assert forall|q: Seq<char>| #[trigger] self@.contains_key(q) <==> old(self)@.insert(k, sv).contains_key(q) by {
                        if old(self)@.contains_key(q) {
                            let j = choose|j: int| 0 <= j < old(self).entries@.len() && old(self).entries@[j].0@ == q;
                            assert(self.entries@[j].0@ == q);
                        }
                        if self@.contains_key(q) {
                            let j = choose|j: int| 0 <= j < self.entries@.len() && self.entries@[j].0@ == q;
                            if j != i {
                                assert(old(self).entries@[j].0@ == q);
                            }
                        }
                        assert(self.entries@[i as int].0@ == k);
                    }
                    assert forall|q: Seq<char>| #[trigger] self@.contains_key(q) implies self@[q] == old(self)@.insert(k, sv)[q] by {
                        let j = choose|j: int| 0 <= j < self.entries@.len() && self.entries@[j].0@ == q;
                        self.lemma_entry(j);
                        if j != i {
                            old(self).lemma_entry(j);
                        }
                    }
                }
            },
            None => {
                let ghost k = key@;
                self.entries.push((key, schema));
                let n = self.entries.len();
                assert(self.wf()) by {
                    assert forall|a: int, b: int|
                        0 <= a < self.entries@.len() && 0 <= b < self.entries@.len() && a != b implies self.entries@[a].0@ != self.entries@[b].0@ by {
                        if a == n - 1 {
                            assert(!old(self)@.contains_key(k));
                            if self.entries@[b].0@ == k {
                                assert(old(self).entries@[b].0@ == k);
                            }
                        } else if b == n - 1 {
                            assert(!old(self)@.contains_key(k));
                            if self.entries@[a].0@ == k {
                                assert(old(self).entries@[a].0@ == k);
                            }
                        } else {
                            assert(old(self).entries@[a] == self.entries@[a]);
                            assert(old(self).entries@[b] == self.entries@[b]);
                        }
                    }
                }
                assert(self@ =~= old(self)@.insert(k, sv)) by {
                    assert forall|q: Seq<char>| #[trigger] self@.contains_key(q) <==> old(self)@.insert(k, sv).contains_key(q) by {
                        if old(self)@.contains_key(q) {
                            let j = choose|j: int| 0 <= j < old(self).entries@.len() && old(self).entries@[j].0@ == q;
                            assert(self.entries@[j].0@ == q);
                        }
                        if self@.contains_key(q) {
                            let j = choose|j: int| 0 <= j < self.entries@.len() && self.entries@[j].0@ == q;
                            if j < n - 1 {
                                assert(old(self).entries@[j].0@ == q);
                            }
                        }
                        assert(self.entries@[n - 1].0@ == k);
                    }
                    assert forall|q: Seq<char>| #[trigger] self@.contains_key(q) implies self@[q] == old(self)@.insert(k, sv)[q] by {
                        let j = choose|j: int| 0 <= j < self.entries@.len() && self.entries@[j].0@ == q;
                        self.lemma_entry(j);
                        if j < n - 1 {
                            assert(old(self).entries@[j] == self.entries@[j]);
                            old(self).lemma_entry(j);
                        }
                    }
                }
            },
        }
    }

    /// Forgets every schema.
    fn clear(&mut self)
        ensures
            final(self).wf(),
            final(self)@ == Map::<Seq<char>, SchemaDefinitionView>::empty(),
    {
        self.entries.clear();
        assert(self@ =~= Map::<Seq<char>, SchemaDefinitionView>::empty());
    }
}

/// Registers a schema under the upper case of its name, replacing any schema
/// registered under that key.
pub fn register_schema(reg: &mut SchemaRegistry, schema: SchemaDefinition)
    requires
        old(reg).wf(),
    ensures
        final(reg).wf(),
        final(reg)@ == old(reg)@.insert(upper(schema@.name), schema@),
{
    let key = to_ascii_upper(schema.name());
    proof {
        lemma_upper_idempotent(schema@.name);
    }
    reg.insert(key, schema);
}

/// Upper-casing twice is upper-casing once.
pub proof fn lemma_upper_idempotent(s: Seq<char>)
    ensures
        upper(upper(s)) == upper(s),
{
    assert(upper(upper(s)) =~= upper(s));
}

/// The message of a failed lookup.
pub open spec fn no_schema_message(name: Seq<char>) -> Seq<char> {
    "No schema named "@ + name
}

/// Looks a schema up by name, in any letter case, after giving the schema
/// modules the chance to load their schemas.
pub fn schema_by_name(reg: &mut SchemaRegistry, name: &str) -> (r: Result<SchemaDefinition, IfcException>)
    requires
        old(reg).wf(),
    ensures
        final(reg).wf(),
        final(reg)@ == old(reg)@,
        match r {
            Ok(s) => old(reg)@.contains_key(upper(name@)) && s@ == old(reg)@[upper(name@)],
            Err(e) => !old(reg)@.contains_key(upper(name@)) && e.0@ == no_schema_message(name@),
        },
{
    ensure_schemas_loaded();
    let key = to_ascii_upper(name);
    match reg.find(&key) {
        Some(i) => {
            proof {
                reg.lemma_entry(i as int);
            }
            Ok(reg.entries[i].1.copy())
        },
        None => {
            let mut msg: Vec<char> = Vec::new();
            push_str(&mut msg, "No schema named ");
            push_str(&mut msg, name);
            Err(IfcException(string_from_chars(&msg)))
        },
    }
}

/// The names under which schemas are registered, each once, after a lookup
/// of `IFC2X3` that gives the schema modules the chance to load theirs.
pub fn schema_names(reg: &mut SchemaRegistry) -> (r: Vec<String>)
    requires
        old(reg).wf(),
    ensures
        final(reg).wf(),
        final(reg)@ == old(reg)@,
        r@.len() == old(reg)@.dom().len(),
        forall|k: Seq<char>| old(reg)@.contains_key(k) <==> exists|i: int| 0 <= i < r@.len() && #[trigger] r@[i]@ == k,
        forall|i: int, j: int| 0 <= i < r@.len() && 0 <= j < r@.len() && i != j ==> r@[i]@ != r@[j]@,
        forall|i: int| 0 <= i < r@.len() ==> upper(#[trigger] r@[i]@) == r@[i]@,
{
    let _ = schema_by_name(reg, "IFC2X3");
    let r = reg.keys();
    proof {
        reg.lemma_keys_upper();
        assert forall|i: int| 0 <= i < r@.len() implies upper(#[trigger] r@[i]@) == r@[i]@ by {
            assert(reg@.contains_key(r@[i]@));
        }
    }
    r
}

/// Unregisters every schema: each schema module unloads its own, then the
/// registry is emptied.
pub fn clear_schemas(reg: &mut SchemaRegistry)
    requires
        old(reg).wf(),
    ensures
        final(reg).wf(),
        final(reg)@ == Map::<Seq<char>, SchemaDefinitionView>::empty(),
{
    clear_schema_modules();
    reg.clear();
}

/// Calls the loading hook of every schema module.
pub fn ensure_schemas_loaded() {
    ifc2x3::get_schema();
    ifc4::get_schema();
    ifc4x1::get_schema();
    ifc4x2::get_schema();
    ifc4x3_rc1::get_schema();
    ifc4x3_rc2::get_schema();
    ifc4x3_rc3::get_schema();
    ifc4x3_rc4::get_schema();
    ifc4x3::get_schema();
    ifc4x3_tc1::get_schema();
    ifc4x3_add1::get_schema();
    ifc4x3_add2::get_schema();
}

/// Calls the unloading hook of every schema module.
pub fn clear_schema_modules() {
    ifc2x3::clear_schema();
    ifc4::clear_schema();
    ifc4x1::clear_schema();
    ifc4x2::clear_schema();
    ifc4x3_rc1::clear_schema();
    ifc4x3_rc2::clear_schema();
    ifc4x3_rc3::clear_schema();
    ifc4x3_rc4::clear_schema();
    ifc4x3::clear_schema();
    ifc4x3_tc1::clear_schema();
    ifc4x3_add1::clear_schema();
    ifc4x3_add2::clear_schema();
}

/// A registered schema is found again by its name, in any letter case, and
/// names that differ only in case find the same schema: registering puts it
/// under the upper case of its name, and a lookup leaves the registry as it
/// is.
pub proof fn law_registered_schema_found(
    m: Map<Seq<char>, SchemaDefinitionView>,
    s: SchemaDefinitionView,
    name: Seq<char>,
)
    requires
        upper(name) == upper(s.name),
    ensures
        m.insert(upper(s.name), s).contains_key(upper(name)),
        m.insert(upper(s.name), s)[upper(name)] == s,
{
}

// ----------------------------------------------------------------------------
// Declarations in order of their upper-case names
// ----------------------------------------------------------------------------
/// Lexicographic order of texts, character by character.
pub open spec fn text_le(a: Seq<char>, b: Seq<char>) -> bool
    decreases a.len(),
{
    if a.len() == 0 {
        true
    } else if b.len() == 0 {
        false
    } else if a[0] != b[0] {
        a[0] < b[0]
    } else {
        text_le(a.drop_first(), b.drop_first())
    }
}

pub proof fn lemma_text_le_refl(a: Seq<char>)
    ensures
        text_le(a, a),
    decreases a.len(),
{
    if a.len() > 0 {
        lemma_text_le_refl(a.drop_first());
    }
}

pub proof fn lemma_text_le_total(a: Seq<char>, b: Seq<char>)
    ensures
        text_le(a, b) || text_le(b, a),
    decreases a.len(),
{
    if a.len() > 0 && b.len() > 0 && a[0] == b[0] {
        lemma_text_le_total(a.drop_first(), b.drop_first());
    }
}

pub proof fn lemma_text_le_trans(a: Seq<char>, b: Seq<char>, c: Seq<char>)
    requires
        text_le(a, b),
        text_le(b, c),
    ensures
        text_le(a, c),
    decreases a.len(),
{
    if a.len() > 0 && b.len() > 0 && c.len() > 0 && a[0] == b[0] && b[0] == c[0] {
        lemma_text_le_trans(a.drop_first(), b.drop_first(), c.drop_first());
    }
}

/// The names are in order of their upper-case forms.
pub open spec fn sorted_by_upper(v: Seq<Seq<char>>) -> bool {
    forall|i: int, j: int| 0 <= i < j < v.len() ==> text_le(upper(#[trigger] v[i]), upper(#[trigger] v[j]))
}

/// Is the upper-case form of a name `k`?
pub open spec fn upper_is(k: Seq<char>) -> spec_fn(Seq<char>) -> bool {
    |s: Seq<char>| upper(s) == k
}

/// The names of `v` whose upper-case form is `k`, in order.
pub open spec fn with_upper(v: Seq<Seq<char>>, k: Seq<char>) -> Seq<Seq<char>> {
    v.filter(upper_is(k))
}

/// `r` is `v` stably sorted by upper-case name: in order, and holding, for
/// each upper-case form, the same names in the same order as `v`.
pub open spec fn stably_sorted_by_upper(r: Seq<Seq<char>>, v: Seq<Seq<char>>) -> bool {
    &&& sorted_by_upper(r)
    &&& forall|k: Seq<char>| #[trigger] with_upper(r, k) == with_upper(v, k)
}

/// Filtering by a predicate that `x` meets keeps every copy of `x`.
proof fn lemma_filter_count(s: Seq<Seq<char>>, f: spec_fn(Seq<char>) -> bool, x: Seq<char>)
    requires
        f(x),
    ensures
        s.filter(f).to_multiset().count(x) == s.to_multiset().count(x),
    decreases s.len(),
{
    broadcast use vstd::seq_lib::group_to_multiset_ensures;

    if s.len() > 0 {
        let p = s.drop_last();
        lemma_filter_count(p, f, x);
        assert(s == p.push(s.last()));
        p.lemma_filter_push(s.last(), f);
    } else {
        assert(s.filter(f) =~= s) by {
            reveal(Seq::filter);
        }
    }
}

/// Putting declarations in order of their upper-case names loses and adds
/// none: the result holds the same names, as often, as the input.
pub proof fn law_sorted_declarations_permute(r: Seq<Seq<char>>, v: Seq<Seq<char>>)
    requires
        stably_sorted_by_upper(r, v),
    ensures
        r.to_multiset() =~= v.to_multiset(),
{
    assert forall|x: Seq<char>| r.to_multiset().count(x) == v.to_multiset().count(x) by {
        let k = upper(x);
        lemma_filter_count(r, upper_is(k), x);
        lemma_filter_count(v, upper_is(k), x);
        assert(with_upper(r, k) == with_upper(v, k));
    }
}

/// Does the upper-case form of `a` come no later than that of `b`?
fn upper_le(a: &String, b: &String) -> (r: bool)
    ensures
        r == text_le(upper(a@), upper(b@)),
{
    let x = chars_of(to_ascii_upper(a.as_str()).as_str());
    let y = chars_of(to_ascii_upper(b.as_str()).as_str());
    let mut i: usize = 0;
    assert(x@.skip(0) =~= x@);
    assert(y@.skip(0) =~= y@);
    while i < x.len() && i < y.len() && x[i] == y[i]
        invariant
            i <= x@.len(),
            i <= y@.len(),
            x@ == upper(a@),
            y@ == upper(b@),
            text_le(x@, y@) == text_le(x@.skip(i as int), y@.skip(i as int)),
        decreases x@.len() - i,
    {
        assert(x@.skip(i as int).drop_first() =~= x@.skip(i + 1));
        assert(y@.skip(i as int).drop_first() =~= y@.skip(i + 1));
        i = i + 1;
    }
    assert(x@.skip(0) =~= x@);
    if i == x.len() {
        true
    } else if i == y.len() {
        false
    } else {
        x[i] < y[i]
    }
}

proof fn lemma_with_upper_one(x: Seq<char>, k: Seq<char>)
    ensures
        with_upper(seq![x], k) == (if upper(x) == k {
            seq![x]
        } else {
            Seq::<Seq<char>>::empty()
        }),
{
    reveal(Seq::filter);
    assert(seq![x].drop_last() =~= Seq::<Seq<char>>::empty());
    assert(Seq::<Seq<char>>::empty().filter(upper_is(k)) =~= Seq::<Seq<char>>::empty());
}

proof fn lemma_with_upper_push(v: Seq<Seq<char>>, x: Seq<char>, k: Seq<char>)
    ensures
        with_upper(v.push(x), k) == (if upper(x) == k {
            with_upper(v, k).push(x)
        } else {
            with_upper(v, k)
        }),
{
    reveal(Seq::filter);
    assert(v.push(x).drop_last() =~= v);
}

/// `out` with `x` inserted at `j`, where all names before `j` come no later
/// than `x` and all from `j` on come after it, is still stably sorted.
proof fn lemma_insert_sorted(out: Seq<Seq<char>>, v: Seq<Seq<char>>, x: Seq<char>, j: int)
    requires
        0 <= j <= out.len(),
        stably_sorted_by_upper(out, v),
        j > 0 ==> text_le(upper(out[j - 1]), upper(x)),
        forall|m: int| j <= m < out.len() ==> !text_le(upper(#[trigger] out[m]), upper(x)),
    ensures
        stably_sorted_by_upper(out.insert(j, x), v.push(x)),
{
    let r = out.insert(j, x);
    let kx = upper(x);
    assert forall|a: int, b: int| 0 <= a < b < r.len() implies text_le(upper(#[trigger] r[a]), upper(#[trigger] r[b])) by {
        if a < j && b < j {
            assert(r[a] == out[a] && r[b] == out[b]);
        } else if a < j && b == j {
            if a < j - 1 {
                lemma_text_le_trans(upper(out[a]), upper(out[j - 1]), kx);
            }
        } else if a < j && b > j {
            assert(r[b] == out[b - 1]);
            lemma_text_le_total(upper(out[b - 1]), kx);
            if a < j - 1 {
                lemma_text_le_trans(upper(out[a]), upper(out[j - 1]), kx);
            }
            lemma_text_le_trans(upper(out[a]), kx, upper(out[b - 1]));
        } else if a == j {
            assert(r[b] == out[b - 1]);
            lemma_text_le_total(upper(out[b - 1]), kx);
        } else {
            assert(r[a] == out[a - 1] && r[b] == out[b - 1]);
        }
    }
    assert(r =~= out.take(j) + seq![x] + out.skip(j));
    assert(out =~= out.take(j) + out.skip(j));
    assert forall|k: Seq<char>| #[trigger] with_upper(r, k) == with_upper(v.push(x), k) by {
        let f = upper_is(k);
        Seq::filter_distributes_over_add(out.take(j) + seq![x], out.skip(j), f);
        Seq::filter_distributes_over_add(out.take(j), seq![x], f);
        Seq::filter_distributes_over_add(out.take(j), out.skip(j), f);
        lemma_with_upper_one(x, k);
        lemma_with_upper_push(v, x, k);
        assert(with_upper(out, k) == with_upper(v, k));
        if k == kx {
            assert(with_upper(out.skip(j), k) =~= Seq::<Seq<char>>::empty()) by {
                let t = out.skip(j);
                let w = with_upper(t, k);
                if w.len() > 0 {
                    t.lemma_filter_pred(f, 0);
                    assert(upper(w[0]) == k);
                    assert(t.filter(f).contains(w[0])) by {
                        assert(w[0] == t.filter(f)[0]);
                    }
                    t.lemma_filter_contains_rev(f, w[0]);
                    let m = choose|m: int| 0 <= m < t.len() && t[m] == w[0];
                    assert(out[j + m] == t[m]);
                    lemma_text_le_refl(kx);
                }
            }
        }
    }
}

/// `decls` stably sorted by upper-case name.
fn sort_by_upper(decls: Vec<String>) -> (r: Vec<String>)
    ensures
        stably_sorted_by_upper(r.deep_view(), decls.deep_view()),
        r@.len() == decls@.len(),
{
    let ghost v = decls.deep_view();
    let mut rest = decls;
    let mut out: Vec<String> = Vec::new();
    let ghost mut done: nat = 0;
    assert forall|k: Seq<char>| #[trigger] with_upper(out.deep_view(), k) == with_upper(v.take(0), k) by {
        reveal(Seq::filter);
        assert(out.deep_view() =~= Seq::<Seq<char>>::empty());
        assert(v.take(0) =~= Seq::<Seq<char>>::empty());
    }
    while rest.len() > 0
        invariant
            done <= v.len(),
            v.len() == decls@.len(),
            out@.len() == done,
            rest.deep_view() == v.skip(done as int),
            stably_sorted_by_upper(out.deep_view(), v.take(done as int)),
        decreases rest@.len(),
    {
        assert(rest.deep_view().len() == rest@.len());
        assert(done < v.len());
        assert(rest.deep_view()[0] == rest@[0]@);
        assert(v.skip(done as int)[0] == v[done as int]);
        let ghost old_seq = rest@;
        let ghost old_dv = rest.deep_view();
        let x = rest.remove(0);
        assert(rest.deep_view() =~= old_dv.skip(1)) by {
            assert(rest@ == old_seq.remove(0));
            assert forall|i: int| 0 <= i < rest.deep_view().len() implies rest.deep_view()[i] == old_dv.skip(1)[i] by {
                assert(rest@[i] == old_seq[i + 1]);
            }
        }
        let ghost xv = x@;
        assert(xv == v[done as int]);
        let mut j = out.len();
        while j > 0 && !upper_le(&out[j - 1], &x)
            invariant
                j <= out@.len(),
                x@ == xv,
                forall|m: int| j <= m < out@.len() ==> !text_le(upper(#[trigger] out.deep_view()[m]), upper(xv)),
            decreases j,
        {
            j = j - 1;
        }
        let ghost before = out.deep_view();
        proof {
            lemma_insert_sorted(before, v.take(done as int), xv, j as int);
            assert(v.take(done as int).push(xv) =~= v.take(done + 1 as int));
        }
        out.insert(j, x);
        assert(out.deep_view() =~= before.insert(j as int, xv));
        proof {
            assert(rest.deep_view() =~= v.skip(done + 1 as int));
            done = done + 1;
        }
    }
    assert(v.take(done as int) =~= v);
    out
}

} // verus!
