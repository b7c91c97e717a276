//! Runtime `set` overrides that outlive a daemon restart without ever
//! rewriting the user's `config.toml`.
//!
//! The effective configuration is `config.toml` with these overrides laid over
//! it, key by key, the overrides winning.

use vstd::prelude::*;

use crate::config;
use crate::config::{Config, OutputConfig};
use crate::slots;
use crate::slots::OutputMap;
use crate::text;

verus! {

/// Overrides by output slot name: a connector name or the default slot.
#[derive(Debug, PartialEq)]
pub struct State {
    pub output: OutputMap,
}

// ------------------------------------------------------------------- model

impl View for State {
    type V = Map<Seq<char>, config::OutputSpec>;

    open spec fn view(&self) -> Map<Seq<char>, config::OutputSpec> {
        self.output@
    }
}

/// Every table of `over` laid on top of the table of the same name in `base`.
pub open spec fn overlay(
    base: Map<Seq<char>, config::OutputSpec>,
    over: Map<Seq<char>, config::OutputSpec>,
) -> Map<Seq<char>, config::OutputSpec> {
    Map::new(
        |k: Seq<char>| base.contains_key(k) || over.contains_key(k),
        |k: Seq<char>| config::overlaid(slots::slot_or_unset(base, k), slots::slot_or_unset(over, k)),
    )
}

/// `cfg` with the overrides laid over its tables.
pub open spec fn effective_model(
    cfg: config::ConfigSpec,
    over: Map<Seq<char>, config::OutputSpec>,
) -> config::ConfigSpec {
    config::ConfigSpec { output: overlay(cfg.output, over), ..cfg }
}

// -------------------------------------------------------------------- code

impl State {
    /// Merge the fields that one `set` provided into `slot`. Fields left open
    /// in `patch` keep their value, so repeated `set`s accumulate.
    pub fn apply_set(&mut self, slot: &str, patch: OutputConfig)
        ensures
            final(self)@ == slots::patched(old(self)@, slot@, patch@),
    {
        self.output.patch(slot, patch);
    }

    /// Lay these overrides over `cfg`, the overrides winning key by key.
    pub fn apply_to(&self, cfg: &mut Config)
        ensures
            final(cfg)@ == effective_model(old(cfg)@, self@),
    {
        let names = self.output.names();
        let ghost base = cfg.output@;
        let ghost over = self@;
        let ghost order = slots::views(names@);
        let mut i: usize = 0;
        while i < names.len()
            invariant
                i <= names@.len(),
                base == old(cfg).output@,
                over == self@,
                order == slots::views(names@),
                slots::listing(order, over.dom()),
                cfg.transition_ms == old(cfg).transition_ms,
                cfg.blur == old(cfg).blur,
                forall|k: Seq<char>| #[trigger]
                    cfg.output@.contains_key(k) <==> base.contains_key(k) || order.take(
                        i as int,
                    ).contains(k),
                forall|k: Seq<char>| #[trigger]
                    cfg.output@.contains_key(k) ==> cfg.output@[k] == (if order.take(
                        i as int,
                    ).contains(k) {
                        config::overlaid(slots::slot_or_unset(base, k), over[k])
                    } else {
                        base[k]
                    }),
            decreases names@.len() - i,
        {
            let ghost key = order[i as int];
            let ghost seen = order.take(i as int);
            let ghost before = cfg.output@;
            proof {
                assert(key == names@[i as int]@);
                assert(order.contains(key));
                if seen.contains(key) {
                    let j = choose|j: int| 0 <= j < seen.len() && seen[j] == key;
                    assert(order[j] == key);
                    assert(text::precedes(order[j], order[i as int]));
                    text::lemma_precedes_irreflexive(key);
                }
                let next = order.take(i + 1);
                assert(next =~= seen.push(key));
                assert forall|k: Seq<char>| #[trigger] next.contains(k) <==> seen.contains(k) || k
                    == key by {
                    if seen.contains(k) {
                        let j = choose|j: int| 0 <= j < seen.len() && seen[j] == k;
                        assert(next[j] == k);
                    }
                    assert(next[i as int] == key);
                }
            }
            if let Some(v) = self.output.get(names[i].as_str()) {
                cfg.output.patch(names[i].as_str(), v.clone());
                proof {
                    assert(cfg.output@ == slots::patched(before, key, over[key]));
                    assert(slots::slot_or_unset(before, key) == slots::slot_or_unset(base, key));
                }
            }
            i += 1;
        }
        proof {
            assert(order.take(i as int) =~= order);
            assert forall|k: Seq<char>| #[trigger] cfg.output@.contains_key(k) implies cfg.output@[k]
                == overlay(base, over)[k] by {
                if !order.contains(k) {
                    config::law_unset_is_neutral(base[k]);
                }
            }
            assert(cfg.output@ =~= overlay(base, over));
        }
    }

    /// Whether there is no override.
    #[must_use]
    pub fn is_empty(&self) -> (r: bool)
        ensures
            r == self@.dom().is_empty(),
            r == (self@ == Map::<Seq<char>, config::OutputSpec>::empty()),
    {
        self.output.is_empty()
    }
}

impl Default for State {
    fn default() -> (r: Self)
        ensures
            r@ == Map::<Seq<char>, config::OutputSpec>::empty(),
    {
        State { output: OutputMap::new() }
    }
}

impl Clone for State {
    fn clone(&self) -> (r: Self)
        ensures
            r@ == self@,
    {
        State { output: self.output.clone() }
    }
}

/// The effective configuration: `disk` with the overrides of `state`.
pub fn effective(disk: &Config, state: &State) -> (r: Config)
    ensures
        r@ == effective_model(disk@, state@),
{
    let mut cfg = disk.clone();
    state.apply_to(&mut cfg);
    cfg
}

// -------------------------------------------------------------------- laws

/// Without overrides the configuration is what the file says.
pub proof fn law_no_overrides_is_config(cfg: config::ConfigSpec)
    ensures
        effective_model(cfg, Map::empty()) == cfg,
{
    let o = overlay(cfg.output, Map::empty());
    assert forall|k: Seq<char>| #[trigger] o.contains_key(k) implies o[k] == cfg.output[k] by {
        config::law_unset_is_neutral(cfg.output[k]);
    }
    assert(o =~= cfg.output);
}

/// An override of a field wins over the file, and a field that no override
/// sets keeps what the file says.
pub proof fn law_override_wins_key_by_key(
    cfg: config::ConfigSpec,
    over: Map<Seq<char>, config::OutputSpec>,
    slot: Seq<char>,
)
    ensures
        ({
            let file = slots::slot_or_unset(cfg.output, slot);
            let set = slots::slot_or_unset(over, slot);
            let eff = slots::slot_or_unset(effective_model(cfg, over).output, slot);
            &&& eff.path == (if set.path is Some { set.path } else { file.path })
            &&& eff.mode == (if set.mode is Some { set.mode } else { file.mode })
            &&& eff.color == (if set.color is Some { set.color } else { file.color })
        }),
        effective_model(cfg, over).transition_ms == cfg.transition_ms,
        effective_model(cfg, over).blur == cfg.blur,
{
}

/// Two `set`s on one slot add up to one `set` of both, the later one winning
/// where both set a field.
pub proof fn law_sets_accumulate(
    state: Map<Seq<char>, config::OutputSpec>,
    slot: Seq<char>,
    first: config::OutputSpec,
    second: config::OutputSpec,
)
    ensures
        slots::patched(slots::patched(state, slot, first), slot, second) == slots::patched(
            state,
            slot,
            config::overlaid(first, second),
        ),
{
    let a = slots::patched(slots::patched(state, slot, first), slot, second);
    let b = slots::patched(state, slot, config::overlaid(first, second));
    config::law_overlaid_associative(slots::slot_or_unset(state, slot), first, second);
    assert(a =~= b);
}

/// A `set` leaves every other slot alone.
pub proof fn law_set_touches_one_slot(
    state: Map<Seq<char>, config::OutputSpec>,
    slot: Seq<char>,
    patch: config::OutputSpec,
    other: Seq<char>,
)
    requires
        other != slot,
    ensures
        slots::slot_or_unset(slots::patched(state, slot, patch), other) == slots::slot_or_unset(
            state,
            other,
        ),
        slots::patched(state, slot, patch).contains_key(other) == state.contains_key(other),
{
}

/// Recording a `set` and overlaying again gives the same effective
/// configuration as patching the effective configuration directly: a persisted
/// `set` and one that is not persisted show the same thing.
pub proof fn law_persisted_set_equals_direct_patch(
    cfg: config::ConfigSpec,
    state: Map<Seq<char>, config::OutputSpec>,
    slot: Seq<char>,
    patch: config::OutputSpec,
)
    ensures
        effective_model(cfg, slots::patched(state, slot, patch)).output == slots::patched(
            effective_model(cfg, state).output,
            slot,
            patch,
        ),
{
    let a = effective_model(cfg, slots::patched(state, slot, patch)).output;
    let eff = effective_model(cfg, state).output;
    let b = slots::patched(eff, slot, patch);
    config::law_overlaid_associative(
        slots::slot_or_unset(cfg.output, slot),
        slots::slot_or_unset(state, slot),
        patch,
    );
    assert(slots::slot_or_unset(eff, slot) == config::overlaid(
        slots::slot_or_unset(cfg.output, slot),
        slots::slot_or_unset(state, slot),
    ));
    assert(a =~= b);
}

/// A `set` on a slot leaves there, field by field, what it sets, and what was
/// there where it sets nothing; the slot exists from then on.
pub proof fn law_set_lands_in_its_slot(
    state: Map<Seq<char>, config::OutputSpec>,
    slot: Seq<char>,
    patch: config::OutputSpec,
)
    ensures
        ({
            let after = slots::patched(state, slot, patch);
            let had = state.contains_key(slot);
            &&& after.contains_key(slot)
            &&& after[slot].path == (if patch.path is Some {
                patch.path
            } else if had {
                state[slot].path
            } else {
                None
            })
            &&& after[slot].mode == (if patch.mode is Some {
                patch.mode
            } else if had {
                state[slot].mode
            } else {
                None
            })
            &&& after[slot].color == (if patch.color is Some {
                patch.color
            } else if had {
                state[slot].color
            } else {
                None
            })
        }),
{
}

/// The effective configuration has the tables of the file and of the overrides,
/// and no others. In each, a field comes from the override that sets it, and
/// else from the file.
pub proof fn law_effective_tables(
    cfg: config::ConfigSpec,
    over: Map<Seq<char>, config::OutputSpec>,
    slot: Seq<char>,
)
    ensures
        ({
            let eff = effective_model(cfg, over);
            let inf = cfg.output.contains_key(slot);
            let ino = over.contains_key(slot);
            &&& eff.transition_ms == cfg.transition_ms && eff.blur == cfg.blur
            &&& eff.output.contains_key(slot) <==> inf || ino
            &&& inf && !ino ==> eff.output[slot] == cfg.output[slot]
            &&& ino && !inf ==> eff.output[slot] == over[slot]
            &&& inf && ino ==> {
                &&& eff.output[slot].path == (if over[slot].path is Some {
                    over[slot].path
                } else {
                    cfg.output[slot].path
                })
                &&& eff.output[slot].mode == (if over[slot].mode is Some {
                    over[slot].mode
                } else {
                    cfg.output[slot].mode
                })
                &&& eff.output[slot].color == (if over[slot].color is Some {
                    over[slot].color
                } else {
                    cfg.output[slot].color
                })
            }
        }),
{
}

/// Whether `t` holds, field by field, what the overrides set for a slot, and what
/// the file sets for it of the rest.
pub open spec fn holds_both(
    t: config::OutputSpec,
    disk: Map<Seq<char>, config::OutputSpec>,
    over: Map<Seq<char>, config::OutputSpec>,
    slot: Seq<char>,
) -> bool {
    &&& if over.contains_key(slot) && over[slot].path is Some {
        t.path == over[slot].path
    } else {
        t.path == (if disk.contains_key(slot) {
            disk[slot].path
        } else {
            None
        })
    }
    &&& if over.contains_key(slot) && over[slot].mode is Some {
        t.mode == over[slot].mode
    } else {
        t.mode == (if disk.contains_key(slot) {
            disk[slot].mode
        } else {
            None
        })
    }
    &&& if over.contains_key(slot) && over[slot].color is Some {
        t.color == over[slot].color
    } else {
        t.color == (if disk.contains_key(slot) {
            disk[slot].color
        } else {
            None
        })
    }
}

} // verus!
