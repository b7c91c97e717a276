//! Output settings by slot name, in name order.

use vstd::prelude::*;

use crate::config;
use crate::config::OutputConfig;
use crate::text;
use crate::text::{str_eq, str_precedes};

verus! {

/// The settings of each output slot, keyed by connector name (or the name of
/// the default slot). No name occurs twice; names are kept in sorted order.
#[derive(Debug, PartialEq)]
pub struct OutputMap {
    entries: Vec<Slot>,
}

/// One named slot.
#[derive(Debug, PartialEq)]
struct Slot {
    name: String,
    value: OutputConfig,
}

// ------------------------------------------------------------------- model

/// Names in strictly increasing order.
pub open spec fn sorted(names: Seq<Seq<char>>) -> bool {
    forall|i: int, j: int|
        0 <= i < j < names.len() ==> text::precedes(#[trigger] names[i], #[trigger] names[j])
}

/// `names` lists each name of `dom` once, in order.
pub open spec fn listing(names: Seq<Seq<char>>, dom: Set<Seq<char>>) -> bool {
    &&& sorted(names)
    &&& forall|k: Seq<char>| #[trigger] names.contains(k) <==> dom.contains(k)
}

/// The names of `dom` in order.
pub open spec fn in_order(dom: Set<Seq<char>>) -> Seq<Seq<char>> {
    choose|names: Seq<Seq<char>>| listing(names, dom)
}

/// The characters of each string.
pub open spec fn views(names: Seq<String>) -> Seq<Seq<char>> {
    names.map_values(|s: String| s@)
}

impl OutputMap {
    spec fn names_model(&self) -> Seq<Seq<char>> {
        self.entries@.map_values(|e: Slot| e.name@)
    }

    #[verifier::type_invariant]
    spec fn ordered(&self) -> bool {
        sorted(self.names_model())
    }
}

impl View for OutputMap {
    type V = Map<Seq<char>, config::OutputSpec>;

    closed spec fn view(&self) -> Map<Seq<char>, config::OutputSpec> {
        Map::new(
            |k: Seq<char>| self.names_model().contains(k),
            |k: Seq<char>| self.entries@[self.names_model().index_of(k)].value@,
        )
    }
}

/// The settings of a slot, or unset ones if there is no such slot.
pub open spec fn slot_or_unset(
    m: Map<Seq<char>, config::OutputSpec>,
    name: Seq<char>,
) -> config::OutputSpec {
    if m.contains_key(name) {
        m[name]
    } else {
        config::unset()
    }
}

/// `m` with `patch` laid over the settings of `name`.
pub open spec fn patched(
    m: Map<Seq<char>, config::OutputSpec>,
    name: Seq<char>,
    patch: config::OutputSpec,
) -> Map<Seq<char>, config::OutputSpec> {
    m.insert(name, config::overlaid(slot_or_unset(m, name), patch))
}

/// `names` with `name` put where it belongs.
spec fn with_name(names: Seq<Seq<char>>, name: Seq<char>) -> Seq<Seq<char>>
    decreases names.len(),
{
    if names.len() > 0 && text::precedes(name, names.last()) {
        with_name(names.drop_last(), name).push(names.last())
    } else {
        names.push(name)
    }
}

proof fn lemma_with_name(names: Seq<Seq<char>>, name: Seq<char>)
    requires
        sorted(names),
        !names.contains(name),
    ensures
        sorted(with_name(names, name)),
        forall|k: Seq<char>| #[trigger]
            with_name(names, name).contains(k) <==> names.contains(k) || k == name,
    decreases names.len(),
{
    let out = with_name(names, name);
    if names.len() > 0 && text::precedes(name, names.last()) {
        let head = names.drop_last();
        let last = names.last();
        assert forall|k: Seq<char>| head.contains(k) implies names.contains(k) by {
            assert(names[head.index_of(k)] == k);
        }
        lemma_with_name(head, name);
        let sub = with_name(head, name);
        assert forall|k: Seq<char>| #[trigger] out.contains(k) <==> names.contains(k) || k
            == name by {
            if out.contains(k) {
                let i = out.index_of(k);
                if i < sub.len() {
                    assert(sub[i] == k && sub.contains(k));
                } else {
                    assert(names[names.len() - 1] == k);
                }
            }
            if names.contains(k) || k == name {
                if k == last {
                    assert(out[sub.len() as int] == k);
                } else {
                    if names.contains(k) {
                        assert(head[names.index_of(k)] == k);
                    }
                    assert(sub.contains(k));
                    assert(out[sub.index_of(k)] == k);
                }
            }
        }
        assert forall|i: int, j: int| 0 <= i < j < out.len() implies text::precedes(
            #[trigger] out[i],
            #[trigger] out[j],
        ) by {
            if j == sub.len() {
                assert(sub.contains(sub[i]));
                if sub[i] != name {
                    let k = head.index_of(sub[i]);
                    assert(text::precedes(names[k], names[names.len() - 1]));
                }
            } else {
                assert(text::precedes(sub[i], sub[j]));
            }
        }
    } else {
        assert forall|k: Seq<char>| #[trigger] out.contains(k) <==> names.contains(k) || k
            == name by {
            if names.contains(k) {
                assert(out[names.index_of(k)] == k);
            }
            assert(out[names.len() as int] == name);
            if out.contains(k) && k != name {
                assert(names[out.index_of(k)] == k);
            }
        }
        assert forall|i: int, j: int| 0 <= i < j < out.len() implies text::precedes(
            #[trigger] out[i],
            #[trigger] out[j],
        ) by {
            if j == names.len() {
                let last = names.last();
                text::lemma_precedes_total(last, name);
                assert(names.contains(last));
                if i < names.len() - 1 {
                    assert(text::precedes(names[i], last));
                    text::lemma_precedes_transitive(names[i], last, name);
                }
            } else {
                assert(text::precedes(names[i], names[j]));
            }
        }
    }
}

/// Finitely many names can be listed in order.
pub proof fn lemma_listing_exists(dom: Set<Seq<char>>)
    requires
        dom.finite(),
    ensures
        listing(in_order(dom), dom),
    decreases dom.len(),
{
    if dom.len() == 0 {
        let none = Seq::<Seq<char>>::empty();
        assert(dom =~= Set::empty());
        assert(listing(none, dom));
    } else {
        let name = dom.choose();
        let rest = dom.remove(name);
        lemma_listing_exists(rest);
        let names = in_order(rest);
        assert(!names.contains(name));
        lemma_with_name(names, name);
        let all = with_name(names, name);
        assert forall|k: Seq<char>| #[trigger] all.contains(k) <==> dom.contains(k) by {}
        assert(listing(all, dom));
    }
}

/// There is only one way to list a set of names in order.
pub proof fn lemma_listing_unique(a: Seq<Seq<char>>, b: Seq<Seq<char>>)
    requires
        sorted(a),
        sorted(b),
        forall|k: Seq<char>| #[trigger] a.contains(k) <==> b.contains(k),
    ensures
        a == b,
    decreases a.len(),
{
    if a.len() == 0 {
        if b.len() > 0 {
            assert(b.contains(b[0]));
            assert(!a.contains(b[0]));
        }
        assert(a =~= b);
    } else {
        assert(a.contains(a[0]));
        assert(b.contains(a[0]));
        let j = choose|j: int| 0 <= j < b.len() && b[j] == a[0];
        assert(b.contains(b[0]));
        assert(a.contains(b[0]));
        let i = choose|i: int| 0 <= i < a.len() && a[i] == b[0];
        if i > 0 && j > 0 {
            assert(text::precedes(a[0], a[i]));
            assert(text::precedes(b[0], b[j]));
            text::lemma_precedes_transitive(a[0], b[0], a[0]);
            text::lemma_precedes_irreflexive(a[0]);
        }
        assert(a[0] == b[0]);
        let at = a.drop_first();
        let bt = b.drop_first();
        assert forall|k: Seq<char>| #[trigger] at.contains(k) <==> bt.contains(k) by {
            if at.contains(k) {
                let m = choose|m: int| 0 <= m < at.len() && at[m] == k;
                assert(a[m + 1] == k);
                assert(a.contains(k));
                assert(b.contains(k));
                let n = choose|n: int| 0 <= n < b.len() && b[n] == k;
                if n == 0 {
                    assert(text::precedes(a[0], a[m + 1]));
                    text::lemma_precedes_irreflexive(k);
                }
                assert(bt[n - 1] == k);
            }
            if bt.contains(k) {
                let m = choose|m: int| 0 <= m < bt.len() && bt[m] == k;
                assert(b[m + 1] == k);
                assert(b.contains(k));
                assert(a.contains(k));
                let n = choose|n: int| 0 <= n < a.len() && a[n] == k;
                if n == 0 {
                    assert(text::precedes(b[0], b[m + 1]));
                    text::lemma_precedes_irreflexive(k);
                }
                assert(at[n - 1] == k);
            }
        }
        assert forall|x: int, y: int| 0 <= x < y < at.len() implies text::precedes(
            #[trigger] at[x],
            #[trigger] at[y],
        ) by {
            assert(text::precedes(a[x + 1], a[y + 1]));
        }
        assert forall|x: int, y: int| 0 <= x < y < bt.len() implies text::precedes(
            #[trigger] bt[x],
            #[trigger] bt[y],
        ) by {
            assert(text::precedes(b[x + 1], b[y + 1]));
        }
        lemma_listing_unique(at, bt);
        assert(a =~= seq![a[0]] + at);
        assert(b =~= seq![b[0]] + bt);
    }
}

/// A listing of `dom` is `in_order(dom)`.
pub proof fn lemma_listing_is_in_order(names: Seq<Seq<char>>, dom: Set<Seq<char>>)
    requires
        listing(names, dom),
    ensures
        in_order(dom) == names,
        listing(in_order(dom), dom),
{
    let other = in_order(dom);
    assert(listing(other, dom));
    assert forall|k: Seq<char>| #[trigger] other.contains(k) <==> names.contains(k) by {
        assert(other.contains(k) <==> dom.contains(k));
    }
    lemma_listing_unique(other, names);
}

// -------------------------------------------------------------------- code

impl OutputMap {
    proof fn lemma_entry(&self, i: int)
        requires
            sorted(self.names_model()),
            0 <= i < self.entries@.len(),
        ensures
            self@.contains_key(self.entries@[i].name@),
            self@[self.entries@[i].name@] == self.entries@[i].value@,
    {
        let names = self.names_model();
        let k = names[i];
        assert(names.contains(k));
        let j = names.index_of(k);
        assert(0 <= j < names.len() && names[j] == k);
        text::lemma_precedes_irreflexive(k);
    }

    /// No slots.
    pub fn new() -> (r: OutputMap)
        ensures
            r@ == Map::<Seq<char>, config::OutputSpec>::empty(),
    {
        let r = OutputMap { entries: Vec::new() };
        assert(r@ =~= Map::<Seq<char>, config::OutputSpec>::empty());
        r
    }

    /// Whether there is no slot.
    pub fn is_empty(&self) -> (r: bool)
        ensures
            r == self@.dom().is_empty(),
            r == (self@ == Map::<Seq<char>, config::OutputSpec>::empty()),
    {
        proof {
            if self.entries@.len() > 0 {
                assert(self.names_model().contains(self.names_model()[0]));
                assert(self@.dom().contains(self.names_model()[0]));
            } else {
                assert(self@ =~= Map::<Seq<char>, config::OutputSpec>::empty());
                assert(self@.dom() =~= Set::<Seq<char>>::empty());
            }
        }
        self.entries.len() == 0
    }

    /// How many slots there are.
    pub fn len(&self) -> (r: usize)
        ensures
            r == in_order(self@.dom()).len(),
    {
        proof {
            use_type_invariant(self);
            self.lemma_listing();
        }
        self.entries.len()
    }

    proof fn lemma_listing(&self)
        requires
            sorted(self.names_model()),
        ensures
            listing(self.names_model(), self@.dom()),
            in_order(self@.dom()) == self.names_model(),
    {
        lemma_listing_is_in_order(self.names_model(), self@.dom());
    }

    /// The settings of the slot `name`.
    pub fn get(&self, name: &str) -> (r: Option<&OutputConfig>)
        ensures
            match r {
                Some(v) => self@.contains_key(name@) && self@[name@] == v@,
                None => !self@.contains_key(name@),
            },
    {
        proof {
            use_type_invariant(self);
        }
        let mut i: usize = 0;
        while i < self.entries.len()
            invariant
                i <= self.entries@.len(),
                sorted(self.names_model()),
                forall|j: int| 0 <= j < i ==> self.names_model()[j] != name@,
            decreases self.entries@.len() - i,
        {
            if str_eq(self.entries[i].name.as_str(), name) {
                proof {
                    self.lemma_entry(i as int);
                }
                return Some(&self.entries[i].value);
            }
            i += 1;
        }
        None
    }

    /// Whether there is a slot `name`.
    pub fn contains_key(&self, name: &str) -> (r: bool)
        ensures
            r == self@.contains_key(name@),
    {
        self.get(name).is_some()
    }

    /// The slot names, in order.
    pub fn names(&self) -> (r: Vec<String>)
        ensures
            views(r@) == in_order(self@.dom()),
            listing(views(r@), self@.dom()),
    {
        proof {
            use_type_invariant(self);
        }
        let mut out: Vec<String> = Vec::new();
        let mut i: usize = 0;
        while i < self.entries.len()
            invariant
                i <= self.entries@.len(),
                out@.len() == i,
                forall|j: int| 0 <= j < i ==> (#[trigger] out@[j])@ == self.names_model()[j],
            decreases self.entries@.len() - i,
        {
            out.push(self.entries[i].name.clone());
            i += 1;
        }
        proof {
            assert(views(out@) =~= self.names_model());
            self.lemma_listing();
        }
        out
    }

    /// Make `value` the settings of the slot `name`.
    pub fn insert(&mut self, name: String, value: OutputConfig)
        ensures
            final(self)@ == old(self)@.insert(name@, value@),
    {
        proof {
            use_type_invariant(&*self);
        }
        let ghost before = *self;
        let ghost old_names = self.names_model();
        let mut entries: Vec<Slot> = Vec::new();
        std::mem::swap(&mut entries, &mut self.entries);
        let mut i: usize = 0;
        while i < entries.len() && str_precedes(entries[i].name.as_str(), name.as_str())
            invariant
                i <= entries@.len(),
                entries@ == before.entries@,
                old_names == before.names_model(),
                forall|j: int| 0 <= j < i ==> text::precedes(old_names[j], name@),
            decreases entries@.len() - i,
        {
            i += 1;
        }
        let ghost key = name@;
        let ghost val = value@;
        if i < entries.len() && str_eq(entries[i].name.as_str(), name.as_str()) {
            let slot = Slot { name, value };
            entries.set(i, slot);
            let ghost after = OutputMap { entries };
            proof {
                assert(after.names_model() =~= old_names);
            }
            self.entries = entries;
            proof {
                Self::lemma_inserted(before, *self, i as int, key, val);
            }
        } else {
            let ghost slot = Slot { name, value };
            entries.insert(i, Slot { name, value });
            let ghost after = OutputMap { entries };
            proof {
                if i < old_names.len() {
                    text::lemma_precedes_total(old_names[i as int], key);
                    assert(text::precedes(key, old_names[i as int]));
                }
                assert forall|j: int| i <= j < old_names.len() implies text::precedes(
                    key,
                    #[trigger] old_names[j],
                ) by {
                    if j > i {
                        assert(text::precedes(old_names[i as int], old_names[j]));
                        text::lemma_precedes_transitive(key, old_names[i as int], old_names[j]);
                    }
                }
                let names = after.names_model();
                assert(names =~= old_names.insert(i as int, key));
                assert forall|x: int, y: int| 0 <= x < y < names.len() implies text::precedes(
                    #[trigger] names[x],
                    #[trigger] names[y],
                ) by {
                    let ox = if x < i { x } else { x - 1 };
                    let oy = if y < i { y } else { y - 1 };
                    if x != i && y != i {
                        assert(text::precedes(old_names[ox], old_names[oy]));
                    }
                }
            }
            self.entries = entries;
            proof {
                Self::lemma_inserted(before, *self, i as int, key, val);
            }
        }
    }

    proof fn lemma_inserted(
        before: OutputMap,
        after: OutputMap,
        i: int,
        key: Seq<char>,
        val: config::OutputSpec,
    )
        requires
            sorted(before.names_model()),
            sorted(after.names_model()),
            0 <= i < after.entries@.len(),
            after.entries@[i].name@ == key,
            after.entries@[i].value@ == val,
            ({
                ||| {
                    &&& i < before.entries@.len()
                    &&& before.names_model()[i] == key
                    &&& after.entries@ == before.entries@.update(i, after.entries@[i])
                }
                ||| {
                    &&& i <= before.entries@.len()
                    &&& after.entries@ == before.entries@.insert(i, after.entries@[i])
                }
            }),
        ensures
            after@ == before@.insert(key, val),
    {
        let replaced = after.entries@.len() == before.entries@.len();
        assert forall|k: Seq<char>| #[trigger] after@.contains_key(k) <==> before@.insert(
            key,
            val,
        ).contains_key(k) by {
            if after@.contains_key(k) && k != key {
                let j = after.names_model().index_of(k);
                assert(after.names_model()[j] == k);
                let oj = if replaced || j < i { j } else { j - 1 };
                assert(before.names_model()[oj] == k);
                assert(before.names_model().contains(k));
            }
            if before@.contains_key(k) {
                let j = before.names_model().index_of(k);
                assert(before.names_model()[j] == k);
                let nj = if replaced || j < i { j } else { j + 1 };
                assert(after.names_model()[nj] == k);
                assert(after.names_model().contains(k));
            }
            assert(after.names_model()[i] == key);
            assert(after.names_model().contains(key));
        }
        assert forall|k: Seq<char>| #[trigger] after@.contains_key(k) implies after@[k]
            == before@.insert(key, val)[k] by {
            let j = after.names_model().index_of(k);
            assert(after.names_model()[j] == k);
            after.lemma_entry(j);
            after.lemma_entry(i);
            if k != key {
                let oj = if replaced || j < i { j } else { j - 1 };
                assert(before.names_model()[oj] == k);
                before.lemma_entry(oj);
            }
        }
        assert(after@ =~= before@.insert(key, val));
    }

    /// Lay the fields that `patch` sets over the slot `name`, which comes into
    /// being if it was not there.
    pub fn patch(&mut self, name: &str, patch: OutputConfig)
        ensures
            final(self)@ == patched(old(self)@, name@, patch@),
    {
        let mut value = match self.get(name) {
            Some(v) => v.clone(),
            None => OutputConfig::unset(),
        };
        config::merge_output_patch(&mut value, patch);
        self.insert(name.to_string(), value);
    }
}

impl Clone for OutputMap {
    fn clone(&self) -> (r: Self)
        ensures
            r@ == self@,
    {
        proof {
            use_type_invariant(self);
        }
        let mut entries: Vec<Slot> = Vec::new();
        let mut i: usize = 0;
        while i < self.entries.len()
            invariant
                i <= self.entries@.len(),
                entries@.len() == i,
                forall|j: int|
                    #![trigger entries@[j]]
                    0 <= j < i ==> entries@[j].name@ == self.entries@[j].name@ && entries@[j].value@
                        == self.entries@[j].value@,
            decreases self.entries@.len() - i,
        {
            let slot = Slot {
                name: self.entries[i].name.clone(),
                value: self.entries[i].value.clone(),
            };
            entries.push(slot);
            i += 1;
        }
        let ghost model = OutputMap { entries };
        proof {
            assert(model.names_model() =~= self.names_model());
        }
        let r = OutputMap { entries };
        proof {
            assert forall|k: Seq<char>| #[trigger] self@.contains_key(k) implies r@[k] == self@[k] by {
                let j = self.names_model().index_of(k);
                assert(self.names_model()[j] == k);
                self.lemma_entry(j);
                r.lemma_entry(j);
            }
            assert(r@ =~= self@);
        }
        r
    }
}

// -------------------------------------------------------------------- laws

/// Changing one slot changes nothing about any other, and no slot goes away.
pub proof fn law_patch_touches_one_slot(
    m: Map<Seq<char>, config::OutputSpec>,
    name: Seq<char>,
    patch: config::OutputSpec,
    other: Seq<char>,
)
    ensures
        other != name ==> patched(m, name, patch).contains_key(other) == m.contains_key(other),
        other != name && m.contains_key(other) ==> patched(m, name, patch)[other] == m[other],
        patched(m, name, patch).contains_key(name),
{
}

/// A listing has every name exactly once, each before the ones that sort behind
/// it.
pub proof fn law_listing_is_sorted_and_complete(dom: Set<Seq<char>>, i: int, j: int)
    requires
        dom.finite(),
        0 <= i < j < in_order(dom).len(),
    ensures
        text::precedes(in_order(dom)[i], in_order(dom)[j]),
        in_order(dom)[i] != in_order(dom)[j],
        dom.contains(in_order(dom)[i]),
        forall|k: Seq<char>| dom.contains(k) ==> #[trigger] in_order(dom).contains(k),
{
    lemma_listing_exists(dom);
    text::lemma_precedes_irreflexive(in_order(dom)[i]);
    assert(in_order(dom).contains(in_order(dom)[i]));
}

} // verus!
