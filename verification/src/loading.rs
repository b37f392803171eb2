//! What the maps hold after a configuration was loaded, and what not.
use vstd::prelude::*;

use crate::bytes::{le32, le64};
use crate::daemon::config::Config;
use crate::daemon::contents::{
    applied_configuration_is_what_the_maps_hold, applied_ends_with_the_plan, changed, entries_after,
    lists_all, planned, Entries,
};
use crate::daemon::kernel::Kernel;
use crate::daemon::reload::{applied, logging_mask, plan, step_write, StepView};
use crate::daemon::session::Attempt;
use crate::purpose::{configured, planned_steps_are_configured, step_sets};

verus! {

/// A step that the configuration calls for sets the entry.
pub open spec fn set_by_the_configuration(
    config: Config,
    map: Seq<char>,
    key: Seq<u8>,
    value: Seq<u8>,
) -> bool {
    exists|step: StepView|
        configured(config, step) && #[trigger] step_sets(step, map, key, value)
}

/// Some step sets the entry.
pub open spec fn set_by_a_step(
    steps: Seq<StepView>,
    map: Seq<char>,
    key: Seq<u8>,
    value: Seq<u8>,
) -> bool {
    exists|n: int| 0 <= n < steps.len() && #[trigger] step_sets(steps[n], map, key, value)
}

proof fn lemma_planned_last(c: Entries, map: Seq<char>, steps: Seq<StepView>, key: Seq<u8>)
    requires
        steps.len() > 0,
        planned(c, map, steps).contains_key(key),
    ensures
        ({
            let before = planned(c, map, steps.drop_last());
            let value = planned(c, map, steps)[key];
            ||| step_sets(steps.last(), map, key, value)
            ||| before.contains_key(key) && before[key] == value
        }),
{
    let w = step_write(steps.last());
    let before = planned(c, map, steps.drop_last());
    assert(planned(c, map, steps) == match w {
        Ok(w) => changed(before, map, w),
        Err(_) => before,
    });
}

proof fn lemma_planned_only(map: Seq<char>, steps: Seq<StepView>, key: Seq<u8>)
    requires
        planned(Map::empty(), map, steps).contains_key(key),
    ensures
        set_by_a_step(steps, map, key, planned(Map::empty(), map, steps)[key]),
    decreases steps.len(),
{
    if steps.len() > 0 {
        let rest = steps.drop_last();
        let value = planned(Map::empty(), map, steps)[key];
        lemma_planned_last(Map::empty(), map, steps, key);
        if step_sets(steps.last(), map, key, value) {
            assert(step_sets(steps[steps.len() - 1], map, key, value));
        } else {
            lemma_planned_only(map, rest, key);
            let n = choose|n: int|
                0 <= n < rest.len() && #[trigger] step_sets(rest[n], map, key, value);
            assert(steps[n] == rest[n]);
            assert(step_sets(steps[n], map, key, value));
        }
    }
}

/// A configuration that was loaded with no deletion refused leaves nothing in the
/// two rule maps that it does not call for, whatever they held before.
pub proof fn loading_leaves_only_what_is_configured<K: Kernel>(
    k: &K,
    config: Config,
    done: Seq<Attempt>,
    rules: Entries,
    tags: Entries,
    key: Seq<u8>,
)
    requires
        applied(k, config, done, Ok(())),
        forall|i: int| 0 <= i < done.len() ==> (#[trigger] done[i]).reply is Ok,
        lists_all(k, "l4_acl"@, rules),
        lists_all(k, "vlan_acl"@, tags),
    ensures
        entries_after(rules, "l4_acl"@, done).contains_key(key) ==> set_by_the_configuration(
            config,
            "l4_acl"@,
            key,
            entries_after(rules, "l4_acl"@, done)[key],
        ),
        entries_after(tags, "vlan_acl"@, done).contains_key(key) ==> set_by_the_configuration(
            config,
            "vlan_acl"@,
            key,
            entries_after(tags, "vlan_acl"@, done)[key],
        ),
{
    applied_configuration_is_what_the_maps_hold(k, config, done, rules, tags);
    if entries_after(rules, "l4_acl"@, done).contains_key(key) {
        lemma_planned_only("l4_acl"@, plan(config), key);
        let value = entries_after(rules, "l4_acl"@, done)[key];
        let n = choose|n: int|
            0 <= n < plan(config).len() && #[trigger] step_sets(
                plan(config)[n],
                "l4_acl"@,
                key,
                value,
            );
        planned_steps_are_configured(config, n);
    }
    if entries_after(tags, "vlan_acl"@, done).contains_key(key) {
        lemma_planned_only("vlan_acl"@, plan(config), key);
        let value = entries_after(tags, "vlan_acl"@, done)[key];
        let n = choose|n: int|
            0 <= n < plan(config).len() && #[trigger] step_sets(
                plan(config)[n],
                "vlan_acl"@,
                key,
                value,
            );
        planned_steps_are_configured(config, n);
    }
}

/// One for a kind that is published, else nothing.
pub open spec fn counts(published: bool, weight: int) -> int {
    if published {
        weight
    } else {
        0
    }
}

proof fn lemma_small_mask(m: u64, mask: Seq<u8>)
    requires
        mask.len() == 8,
        m == mask[0] + 256 * mask[1],
        mask[1] <= 1,
        forall|i: int| 2 <= i < 8 ==> mask[i] == 0,
    ensures
        le64(m) == mask,
{
    assert(m % 0x1_0000_0000 == m && m / 0x1_0000_0000 == 0);
    let lo = le32(m as u32);
    let hi = le32(0);
    assert(lo.len() == 4 && hi.len() == 4);
    assert(hi[0] == 0 && hi[1] == 0 && hi[2] == 0 && hi[3] == 0);
    assert(lo[0] == mask[0] && lo[1] == mask[1] && lo[2] == 0 && lo[3] == 0);
    assert(le64(m) =~= mask);
}

/// A configuration that was loaded leaves the mask of its logging: in the first
/// byte the seven kinds from dropped packets to tags, in the second the allowed
/// packets.
pub proof fn loaded_mask_names_the_published_kinds<K: Kernel>(
    k: &K,
    config: Config,
    done: Seq<Attempt>,
    c: Entries,
    mask: Seq<u8>,
)
    requires
        applied(k, config, done, Ok(())),
        mask.len() == 8,
        ({
            let l = config.logging;
            mask[0] == counts(l.PacketDrop, 2) + counts(l.RateLimited, 4) + counts(
                l.ConntrackMiss,
                8,
            ) + counts(l.BackendSelected, 16) + counts(l.SlowPath, 32) + counts(
                l.ServiceMatched,
                64,
            ) + counts(l.VlanDetected, 128)
        }),
        mask[1] == counts(config.logging.PacketAllow, 1),
        forall|i: int| 2 <= i < 8 ==> mask[i] == 0,
    ensures
        entries_after(c, "event_mask"@, done).contains_key(seq![0u8, 0, 0, 0]),
        entries_after(c, "event_mask"@, done)[seq![0u8, 0, 0, 0]] == mask,
{
    let (before, _) = applied_ends_with_the_plan(k, config, done, c, "event_mask"@);
    let m = logging_mask(config.logging);
    lemma_small_mask(m, mask);
    assert(le32(0) =~= seq![0u8, 0, 0, 0]);
}

} // verus!
