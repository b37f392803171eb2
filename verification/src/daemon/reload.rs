//! Applying a configuration to the kernel maps.
use vstd::prelude::*;
use vstd::string::StringExecFns;

use crate::daemon::config::{vlan_pairs, AclRule, AddrBlock, Config, LoggingConfig, VlanSpec};
use crate::daemon::host::Host;
use crate::daemon::kernel::{
    lemma_written, made, seen, written, ErrorView, Kernel, MapError, WriteView, L4_ACL_MAP,
    VLAN_ACL_MAP,
};
use crate::daemon::maps::{
    acl_add, clear_map, cleared, event_mask_set, mask_write, parsed_action, parsed_rule, rule_added,
    rule_write, vlan_acl_add, vlan_added, vlan_write,
};
use crate::daemon::session::{Attempt, Session, Writer};
use crate::trace::{extends, lemma_same, lemma_since, since};
use crate::maps::EventKind;
use crate::text::texts;
use crate::xdp::event_enabled_by;

verus! {

// ---- The plan ----

/// One entry to write.
#[derive(Debug)]
pub enum Step {
    Rule { action: String, src: String, dst: String, proto: String, rate: u32 },
    Vlan { outer: u16, inner: u16, action: String, rate: u32 },
}

/// What a step says.
#[verifier::ext_equal]
pub enum StepView {
    Rule { action: Seq<char>, src: Seq<char>, dst: Seq<char>, proto: Seq<char>, rate: u32 },
    Vlan { outer: u16, inner: u16, action: Seq<char>, rate: u32 },
}

impl View for Step {
    type V = StepView;

    open spec fn view(&self) -> StepView {
        match self {
            Step::Rule { action, src, dst, proto, rate } => StepView::Rule {
                action: action@,
                src: src@,
                dst: dst@,
                proto: proto@,
                rate: *rate,
            },
            Step::Vlan { outer, inner, action, rate } => StepView::Vlan {
                outer: *outer,
                inner: *inner,
                action: action@,
                rate: *rate,
            },
        }
    }
}

pub open spec fn step_views(v: Seq<Step>) -> Seq<StepView> {
    Seq::new(v.len(), |i: int| v[i]@)
}

/// The addresses of a block; without any, all IPv4 addresses.
pub open spec fn block_addresses(block: Option<AddrBlock>) -> Seq<Seq<char>> {
    match block {
        Some(AddrBlock { addresses: Some(v), ports: _ }) => if v@.len() > 0 {
            texts(v@)
        } else {
            seq!["0.0.0.0/0"@]
        },
        _ => seq!["0.0.0.0/0"@],
    }
}

/// The destination port of a rule.
pub open spec fn rule_port(rule: AclRule) -> Seq<char> {
    match rule.dst {
        Some(AddrBlock { addresses: _, ports: Some(p) }) => p.number@,
        _ => "any"@,
    }
}

/// The protocol of a rule.
pub open spec fn rule_proto(rule: AclRule) -> Seq<char> {
    match rule.dst {
        Some(AddrBlock { addresses: _, ports: Some(p) }) => p.proto@,
        _ => "tcp"@,
    }
}

pub open spec fn rule_rate(rule: AclRule) -> u32 {
    match rule.rate {
        Some(r) => r,
        None => 0,
    }
}

/// The step for a source and a destination of a rule: from any port of the
/// source to the rule's port of the destination.
pub open spec fn pair_step(
    rule: AclRule,
    action: Seq<char>,
    src: Seq<char>,
    dst: Seq<char>,
) -> StepView {
    StepView::Rule {
        action,
        src: src + ":any"@,
        dst: dst + ":"@ + rule_port(rule),
        proto: rule_proto(rule),
        rate: rule_rate(rule),
    }
}

/// The steps for every destination of each of the sources.
pub open spec fn pair_steps(
    rule: AclRule,
    action: Seq<char>,
    srcs: Seq<Seq<char>>,
    dsts: Seq<Seq<char>>,
) -> Seq<StepView>
    decreases srcs.len(),
{
    if srcs.len() == 0 {
        Seq::empty()
    } else {
        pair_steps(rule, action, srcs.drop_last(), dsts) + Seq::new(
            dsts.len(),
            |j: int| pair_step(rule, action, srcs.last(), dsts[j]),
        )
    }
}

pub open spec fn vlan_step(
    rule: AclRule,
    action: Seq<char>,
    tags: (u16, Option<u16>),
) -> StepView {
    StepView::Vlan {
        outer: tags.0,
        inner: match tags.1 {
            Some(i) => i,
            None => 0,
        },
        action,
        rate: rule_rate(rule),
    }
}

/// The steps for the VLAN tags of a rule.
pub open spec fn vlan_steps(rule: AclRule, action: Seq<char>, specs: Seq<VlanSpec>) -> Seq<StepView>
    decreases specs.len(),
{
    if specs.len() == 0 {
        Seq::empty()
    } else {
        let pairs = vlan_pairs(specs.last());
        vlan_steps(rule, action, specs.drop_last()) + Seq::new(
            pairs.len(),
            |i: int| vlan_step(rule, action, pairs[i]),
        )
    }
}

/// The address part of a rule: nothing where it names neither a source nor a
/// destination.
pub open spec fn address_steps(rule: AclRule, action: Seq<char>) -> Seq<StepView> {
    if rule.src is None && rule.dst is None {
        Seq::empty()
    } else {
        pair_steps(rule, action, block_addresses(rule.src), block_addresses(rule.dst))
    }
}

pub open spec fn tag_steps(rule: AclRule, action: Seq<char>) -> Seq<StepView> {
    match rule.vlan {
        Some(v) => vlan_steps(rule, action, v@),
        None => Seq::empty(),
    }
}

/// The steps of the rules of a section, in order.
pub open spec fn section_steps(rules: Seq<AclRule>, action: Seq<char>) -> Seq<StepView>
    decreases rules.len(),
{
    if rules.len() == 0 {
        Seq::empty()
    } else {
        section_steps(rules.drop_last(), action) + (address_steps(rules.last(), action)
            + tag_steps(rules.last(), action))
    }
}

/// The steps of a configuration: the rules that allow, then those that drop.
pub open spec fn plan(config: Config) -> Seq<StepView> {
    section_steps(config.acl.allow@, "allow"@) + section_steps(config.acl.drop@, "drop"@)
}

/// The addresses of a block; without any, all IPv4 addresses.
pub fn expand_addr_block(block: &Option<AddrBlock>) -> (r: Vec<String>)
    ensures
        texts(r@) == block_addresses(*block),
{
    let mut v: Vec<String> = Vec::new();
    assert(texts(v@) =~= Seq::empty());
    if let Some(b) = block {
        if let Some(addrs) = &b.addresses {
            let mut i: usize = 0;
            assert(texts(addrs@).take(0) =~= Seq::empty());
            while i < addrs.len()
                invariant
                    i <= addrs@.len(),
                    v@.len() == i,
                    texts(v@) == texts(addrs@).take(i as int),
                decreases addrs@.len() - i,
            {
                let ghost before = v@;
                v.push(addrs[i].as_str().to_owned());
                assert(texts(v@) =~= texts(before).push(addrs@[i as int]@));
                i += 1;
                assert(texts(addrs@).take(i as int) =~= texts(addrs@).take(i - 1).push(
                    addrs@[i - 1]@,
                ));
            }
            assert(texts(addrs@).take(i as int) =~= texts(addrs@));
        }
    }
    if v.len() == 0 {
        v.push("0.0.0.0/0".to_string());
        assert(texts(v@) =~= seq!["0.0.0.0/0"@]);
    }
    v
}

fn push_pairs(
    out: &mut Vec<Step>,
    rule: &AclRule,
    action: &str,
    srcs: &Vec<String>,
    dsts: &Vec<String>,
    dport: &str,
    proto: &str,
    rate: u32,
)
    requires
        dport@ == rule_port(*rule),
        proto@ == rule_proto(*rule),
        rate == rule_rate(*rule),
    ensures
        step_views(final(out)@) == step_views(old(out)@) + pair_steps(
            *rule,
            action@,
            texts(srcs@),
            texts(dsts@),
        ),
{
    let ghost ss = texts(srcs@);
    let ghost ds = texts(dsts@);
    let mut i: usize = 0;
    assert(ss.take(0) =~= Seq::empty());
    assert(step_views(out@) =~= step_views(old(out)@) + pair_steps(*rule, action@, ss.take(0), ds));
    while i < srcs.len()
        invariant
            i <= srcs@.len(),
            ss == texts(srcs@),
            ds == texts(dsts@),
            dport@ == rule_port(*rule),
            proto@ == rule_proto(*rule),
            rate == rule_rate(*rule),
            step_views(out@) == step_views(old(out)@) + pair_steps(
                *rule,
                action@,
                ss.take(i as int),
                ds,
            ),
        decreases srcs@.len() - i,
    {
        let ghost base = step_views(out@);
        let ghost row = Seq::new(ds.len(), |j: int| pair_step(*rule, action@, ss[i as int], ds[j]));
        let mut j: usize = 0;
        assert(base + row.take(0) =~= base);
        while j < dsts.len()
            invariant
                j <= dsts@.len(),
                i < srcs@.len(),
                ss == texts(srcs@),
                ds == texts(dsts@),
                dport@ == rule_port(*rule),
                proto@ == rule_proto(*rule),
                rate == rule_rate(*rule),
                row == Seq::new(
                    ds.len(),
                    |j: int| pair_step(*rule, action@, ss[i as int], ds[j]),
                ),
                step_views(out@) == base + row.take(j as int),
            decreases dsts@.len() - j,
        {
            let mut src = srcs[i].as_str().to_owned();
            src.append(":any");
            let mut dst = dsts[j].as_str().to_owned();
            dst.append(":");
            dst.append(dport);
            let step = Step::Rule {
                action: action.to_owned(),
                src,
                dst,
                proto: proto.to_owned(),
                rate,
            };
            let ghost before = out@;
            out.push(step);
            assert(step@ == row[j as int]);
            assert(step_views(out@) =~= step_views(before).push(step@));
            assert(row.take(j + 1) =~= row.take(j as int).push(row[j as int]));
            j += 1;
        }
        assert(row.take(j as int) =~= row);
        assert(ss.take(i + 1).drop_last() =~= ss.take(i as int));
        assert(ss.take(i + 1).last() == ss[i as int]);
        assert(step_views(out@) =~= step_views(old(out)@) + pair_steps(
            *rule,
            action@,
            ss.take(i + 1),
            ds,
        ));
        i += 1;
    }
    assert(ss.take(i as int) =~= ss);
}

fn push_tags(out: &mut Vec<Step>, rule: &AclRule, action: &str, specs: &Vec<VlanSpec>, rate: u32)
    requires
        rate == rule_rate(*rule),
    ensures
        step_views(final(out)@) == step_views(old(out)@) + vlan_steps(*rule, action@, specs@),
{
    let mut i: usize = 0;
    assert(specs@.take(0) =~= Seq::empty());
    assert(step_views(out@) =~= step_views(old(out)@) + vlan_steps(*rule, action@, specs@.take(0)));
    while i < specs.len()
        invariant
            i <= specs@.len(),
            rate == rule_rate(*rule),
            step_views(out@) == step_views(old(out)@) + vlan_steps(
                *rule,
                action@,
                specs@.take(i as int),
            ),
        decreases specs@.len() - i,
    {
        let pairs = specs[i].iter();
        let ghost base = step_views(out@);
        let ghost row = Seq::new(pairs@.len(), |j: int| vlan_step(*rule, action@, pairs@[j]));
        let mut j: usize = 0;
        assert(base + row.take(0) =~= base);
        while j < pairs.len()
            invariant
                j <= pairs@.len(),
                rate == rule_rate(*rule),
                row == Seq::new(pairs@.len(), |j: int| vlan_step(*rule, action@, pairs@[j])),
                step_views(out@) == base + row.take(j as int),
            decreases pairs@.len() - j,
        {
            let (outer, inner_opt) = pairs[j];
            let inner: u16 = match inner_opt {
                Some(n) => n,
                None => 0,
            };
            let step = Step::Vlan { outer, inner, action: action.to_owned(), rate };
            let ghost before = out@;
            out.push(step);
            assert(step@ == row[j as int]);
            assert(step_views(out@) =~= step_views(before).push(step@));
            assert(row.take(j + 1) =~= row.take(j as int).push(row[j as int]));
            j += 1;
        }
        assert(row.take(j as int) =~= row);
        assert(specs@.take(i + 1).drop_last() =~= specs@.take(i as int));
        assert(step_views(out@) =~= step_views(old(out)@) + vlan_steps(
            *rule,
            action@,
            specs@.take(i + 1),
        ));
        i += 1;
    }
    assert(specs@.take(i as int) =~= specs@);
}

fn push_rule(out: &mut Vec<Step>, rule: &AclRule, action: &str)
    ensures
        step_views(final(out)@) == step_views(old(out)@) + (address_steps(*rule, action@)
            + tag_steps(*rule, action@)),
{
    let rate: u32 = match rule.rate {
        Some(r) => r,
        None => 0,
    };
    let ghost base = step_views(out@);
    if rule.src.is_some() || rule.dst.is_some() {
        let srcs = expand_addr_block(&rule.src);
        let dsts = expand_addr_block(&rule.dst);
        let mut dport = "any".to_string();
        let mut proto = "tcp".to_string();
        if let Some(d) = &rule.dst {
            if let Some(p) = &d.ports {
                dport = p.number.as_str().to_owned();
                proto = p.proto.as_str().to_owned();
            }
        }
        push_pairs(out, rule, action, &srcs, &dsts, dport.as_str(), proto.as_str(), rate);
    }
    assert(step_views(out@) =~= base + address_steps(*rule, action@));
    if let Some(specs) = &rule.vlan {
        push_tags(out, rule, action, specs, rate);
    }
    assert(step_views(out@) =~= base + (address_steps(*rule, action@) + tag_steps(*rule, action@)));
}

fn push_section(out: &mut Vec<Step>, rules: &Vec<AclRule>, action: &str)
    ensures
        step_views(final(out)@) == step_views(old(out)@) + section_steps(rules@, action@),
{
    let mut i: usize = 0;
    assert(rules@.take(0) =~= Seq::empty());
    assert(step_views(out@) =~= step_views(old(out)@) + section_steps(rules@.take(0), action@));
    while i < rules.len()
        invariant
            i <= rules@.len(),
            step_views(out@) == step_views(old(out)@) + section_steps(
                rules@.take(i as int),
                action@,
            ),
        decreases rules@.len() - i,
    {
        push_rule(out, &rules[i], action);
        assert(rules@.take(i + 1).drop_last() =~= rules@.take(i as int));
        assert(step_views(out@) =~= step_views(old(out)@) + section_steps(
            rules@.take(i + 1),
            action@,
        ));
        i += 1;
    }
    assert(rules@.take(i as int) =~= rules@);
}

/// The steps of a configuration.
pub fn make_plan(config: &Config) -> (r: Vec<Step>)
    ensures
        step_views(r@) == plan(*config),
{
    let mut out: Vec<Step> = Vec::new();
    assert(step_views(out@) =~= Seq::empty());
    push_section(&mut out, &config.acl.allow, "allow");
    assert(step_views(out@) =~= section_steps(config.acl.allow@, "allow"@));
    push_section(&mut out, &config.acl.drop, "drop");
    out
}

// ---- The event mask ----

/// Whether a configuration publishes a kind of event.
pub open spec fn logs(l: LoggingConfig, kind: EventKind) -> bool {
    match kind {
        EventKind::PacketDrop => l.PacketDrop,
        EventKind::RateLimited => l.RateLimited,
        EventKind::ConntrackMiss => l.ConntrackMiss,
        EventKind::BackendSelected => l.BackendSelected,
        EventKind::SlowPath => l.SlowPath,
        EventKind::ServiceMatched => l.ServiceMatched,
        EventKind::VlanDetected => l.VlanDetected,
        EventKind::PacketAllow => l.PacketAllow,
    }
}

pub open spec fn flag(b: bool) -> u64 {
    if b {
        1
    } else {
        0
    }
}

/// The mask with the bit of each published kind.
pub open spec fn logging_mask(l: LoggingConfig) -> u64 {
    (2 * flag(l.PacketDrop) + 4 * flag(l.RateLimited) + 8 * flag(l.ConntrackMiss) + 16 * flag(
        l.BackendSelected,
    ) + 32 * flag(l.SlowPath) + 64 * flag(l.ServiceMatched) + 128 * flag(l.VlanDetected) + 256
        * flag(l.PacketAllow)) as u64
}

fn flag_value(b: bool) -> (r: u64)
    ensures
        r == flag(b),
        r <= 1,
{
    if b {
        1
    } else {
        0
    }
}

/// The mask of the kinds that a configuration publishes.
pub fn event_mask_of(l: &LoggingConfig) -> (r: u64)
    ensures
        r == logging_mask(*l),
{
    let a: u64 = flag_value(l.PacketDrop);
    let b: u64 = flag_value(l.RateLimited);
    let c: u64 = flag_value(l.ConntrackMiss);
    let d: u64 = flag_value(l.BackendSelected);
    let e: u64 = flag_value(l.SlowPath);
    let f: u64 = flag_value(l.ServiceMatched);
    let g: u64 = flag_value(l.VlanDetected);
    let h: u64 = flag_value(l.PacketAllow);
    2 * a + 4 * b + 8 * c + 16 * d + 32 * e + 64 * f + 128 * g + 256 * h
}

/// Under the mask of a configuration the packet program publishes exactly the
/// kinds that the configuration names.
pub proof fn mask_publishes_configured_kinds(l: LoggingConfig, kind: EventKind)
    ensures
        event_enabled_by(logging_mask(l), kind) == logs(l, kind),
{
    let a = flag(l.PacketDrop);
    let b = flag(l.RateLimited);
    let c = flag(l.ConntrackMiss);
    let d = flag(l.BackendSelected);
    let e = flag(l.SlowPath);
    let f = flag(l.ServiceMatched);
    let g = flag(l.VlanDetected);
    let h = flag(l.PacketAllow);
    let m = logging_mask(l);
    assert((m >> 1u64) & 1 == a && (m >> 2u64) & 1 == b && (m >> 3u64) & 1 == c && (m >> 4u64) & 1
        == d && (m >> 5u64) & 1 == e && (m >> 6u64) & 1 == f && (m >> 7u64) & 1 == g && (m >> 8u64)
        & 1 == h) by (bit_vector)
        requires
            a <= 1,
            b <= 1,
            c <= 1,
            d <= 1,
            e <= 1,
            f <= 1,
            g <= 1,
            h <= 1,
            m == 2 * a + 4 * b + 8 * c + 16 * d + 32 * e + 64 * f + 128 * g + 256 * h,
    ;
}

// ---- Applying ----

/// The change that a step makes; a step that names no rule makes none.
pub open spec fn step_write(step: StepView) -> Result<WriteView, Seq<char>> {
    match step {
        StepView::Rule { action, src, dst, proto, rate } => match parsed_rule(
            action,
            src,
            dst,
            Some(proto),
            Some(rate),
        ) {
            Ok(rule) => Ok(rule_write(rule)),
            Err(e) => Err(e),
        },
        StepView::Vlan { outer, inner, action, rate } => match parsed_action(action) {
            Ok(a) => Ok(vlan_write(outer, Some(inner), a, Some(rate))),
            Err(e) => Err(e),
        },
    }
}

/// A step was carried out with a result, and nothing else was changed.
#[verifier::opaque]
pub open spec fn step_done<K: Kernel>(
    k: &K,
    step: StepView,
    done: Seq<Attempt>,
    r: Result<(), ErrorView>,
) -> bool {
    match step {
        StepView::Rule { action, src, dst, proto, rate } => rule_added(
            k,
            action,
            src,
            dst,
            Some(proto),
            Some(rate),
            done,
            r,
        ),
        StepView::Vlan { outer, inner, action, rate } => vlan_added(
            k,
            outer,
            Some(inner),
            action,
            Some(rate),
            done,
            r,
        ),
    }
}

/// The change of a step was made.
#[verifier::opaque]
pub open spec fn step_made<K: Kernel>(k: &K, step: StepView, a: Attempt) -> bool {
    step_write(step) matches Ok(w) && made(k, w, a)
}

/// A step that succeeded made its change, and one that failed left no change.
pub proof fn lemma_step_done<K: Kernel>(
    k: &K,
    step: StepView,
    done: Seq<Attempt>,
    r: Result<(), ErrorView>,
)
    requires
        step_done(k, step, done, r),
    ensures
        r is Ok ==> done.len() == 1 && step_made(k, step, done[0]),
        r is Err ==> done.len() <= 1 && forall|i: int|
            0 <= i < done.len() ==> (#[trigger] done[i]).reply is Err,
{
    reveal(step_done);
    reveal(step_made);
    match step {
        StepView::Rule { action, src, dst, proto, rate } => {
            if let Ok(rule) = parsed_rule(action, src, dst, Some(proto), Some(rate)) {
                let w = choose|w: Result<(), ErrorView>|
                    {
                        &&& #[trigger] written(k, rule_write(rule), done, w)
                        &&& r == match w {
                            Ok(u) => Ok::<(), ErrorView>(u),
                            Err(e) => Err(ErrorView::Json("["@ + action + "] "@ + e.message())),
                        }
                    };
                lemma_written(k, rule_write(rule), done, w);
            }
        },
        StepView::Vlan { outer, inner, action, rate } => {
            if let Ok(a) = parsed_action(action) {
                lemma_written(k, vlan_write(outer, Some(inner), a, Some(rate)), done, r);
            }
        },
    }
}

/// All steps were carried out in order, each once, or those before the first
/// that failed; nothing else was changed.
pub open spec fn steps_run<K: Kernel>(
    k: &K,
    steps: Seq<StepView>,
    done: Seq<Attempt>,
    r: Result<(), ErrorView>,
) -> bool {
    match r {
        Ok(_) => done.len() == steps.len() && forall|i: int|
            0 <= i < steps.len() ==> step_made(k, #[trigger] steps[i], done[i]),
        Err(e) => exists|n: int| #[trigger] step_failed(k, steps, n, done, e),
    }
}

/// The steps before the one at `n` were carried out, and that one failed.
pub open spec fn step_failed<K: Kernel>(
    k: &K,
    steps: Seq<StepView>,
    n: int,
    done: Seq<Attempt>,
    e: ErrorView,
) -> bool {
    &&& 0 <= n < steps.len()
    &&& n <= done.len()
    &&& forall|i: int| 0 <= i < n ==> step_made(k, #[trigger] steps[i], done[i])
    &&& step_done(k, steps[n], done.skip(n), Err(e))
}

fn run_step<K: Kernel, W: Writer>(k: &K, s: &mut Session<W>, step: &Step) -> (r: Result<
    (),
    MapError,
>)
    ensures
        extends(old(s).trace(), final(s).trace()),
        final(s).writer() == old(s).writer(),
        step_done(k, step@, since(old(s).trace(), final(s).trace()), seen(r)),
{
    reveal(step_done);
    match step {
        Step::Rule { action, src, dst, proto, rate } => acl_add(
            k,
            s,
            action.as_str(),
            src.as_str(),
            dst.as_str(),
            Some(proto.as_str()),
            Some(*rate),
        ),
        Step::Vlan { outer, inner, action, rate } => vlan_acl_add(
            k,
            s,
            *outer,
            Some(*inner),
            action.as_str(),
            Some(*rate),
        ),
    }
}

/// Carries out steps until one fails.
pub fn run_steps<K: Kernel, W: Writer>(k: &K, s: &mut Session<W>, steps: &Vec<Step>) -> (r: Result<
    (),
    MapError,
>)
    ensures
        extends(old(s).trace(), final(s).trace()),
        final(s).writer() == old(s).writer(),
        steps_run(k, step_views(steps@), since(old(s).trace(), final(s).trace()), seen(r)),
{
    let ghost all = step_views(steps@);
    let ghost start = s.trace();
    proof {
        lemma_same(start);
    }
    let mut i: usize = 0;
    while i < steps.len()
        invariant
            i <= steps@.len(),
            all == step_views(steps@),
            start == old(s).trace(),
            s.writer() == old(s).writer(),
            extends(start, s.trace()),
            since(start, s.trace()).len() == i,
            forall|j: int|
                0 <= j < i ==> step_made(k, #[trigger] all[j], since(start, s.trace())[j]),
        decreases steps@.len() - i,
    {
        let ghost before = s.trace();
        let r = run_step(k, s, &steps[i]);
        proof {
            assert(all[i as int] == steps@[i as int]@);
            let part = since(before, s.trace());
            lemma_step_done(k, all[i as int], part, seen(r));
            lemma_since(start, before, s.trace());
            let done = since(start, s.trace());
            assert(done.skip(i as int) =~= part);
            assert forall|j: int| 0 <= j < i implies step_made(k, #[trigger] all[j], done[j]) by {
                assert(done[j] == since(start, before)[j]);
            }
            if r is Ok {
                assert(done[i as int] == part[0]);
            }
        }
        match r {
            Ok(_) => {},
            Err(e) => {
                assert(step_failed(k, all, i as int, since(start, s.trace()), e@));
                return Err(e);
            },
        }
        i += 1;
    }
    Ok(())
}

/// The configuration was applied: the L4 ACL cleared, then the VLAN ACL, then
/// the plan carried out, then the event mask stored. The first failure ends it,
/// and nothing else was changed.
pub open spec fn applied<K: Kernel>(
    k: &K,
    config: Config,
    done: Seq<Attempt>,
    r: Result<(), ErrorView>,
) -> bool {
    exists|a: Seq<Attempt>, b: Seq<Attempt>, c1: Result<(), ErrorView>|
        {
            &&& done == #[trigger] (a + b)
            &&& #[trigger] cleared(k, L4_ACL_MAP@, a, c1)
            &&& match c1 {
                Err(e) => r == Err::<(), ErrorView>(e) && b.len() == 0,
                Ok(_) => applied_after_rules(k, config, b, r),
            }
        }
}

pub open spec fn applied_after_rules<K: Kernel>(
    k: &K,
    config: Config,
    done: Seq<Attempt>,
    r: Result<(), ErrorView>,
) -> bool {
    exists|a: Seq<Attempt>, b: Seq<Attempt>, c2: Result<(), ErrorView>|
        {
            &&& done == #[trigger] (a + b)
            &&& #[trigger] cleared(k, VLAN_ACL_MAP@, a, c2)
            &&& match c2 {
                Err(e) => r == Err::<(), ErrorView>(e) && b.len() == 0,
                Ok(_) => plan_applied(k, config, b, r),
            }
        }
}

pub open spec fn plan_applied<K: Kernel>(
    k: &K,
    config: Config,
    done: Seq<Attempt>,
    r: Result<(), ErrorView>,
) -> bool {
    exists|a: Seq<Attempt>, b: Seq<Attempt>, p: Result<(), ErrorView>|
        {
            &&& done == #[trigger] (a + b)
            &&& #[trigger] steps_run(k, plan(config), a, p)
            &&& match p {
                Err(e) => r == Err::<(), ErrorView>(e) && b.len() == 0,
                Ok(_) => written(k, mask_write(logging_mask(config.logging)), b, r),
            }
        }
}

/// Applies a configuration.
pub fn apply_config<K: Kernel, W: Writer>(k: &K, s: &mut Session<W>, config: &Config) -> (r: Result<
    (),
    MapError,
>)
    ensures
        extends(old(s).trace(), final(s).trace()),
        final(s).writer() == old(s).writer(),
        applied(k, *config, since(old(s).trace(), final(s).trace()), seen(r)),
{
    let ghost t0 = s.trace();
    let ghost none = Seq::<Attempt>::empty();
    let c1 = clear_map(k, s, L4_ACL_MAP);
    let ghost t1 = s.trace();
    assert(cleared(k, L4_ACL_MAP@, since(t0, t1), seen(c1)));
    if let Err(e) = c1 {
        assert(since(t0, t1) =~= since(t0, t1) + none);
        return Err(e);
    }
    let c2 = clear_map(k, s, VLAN_ACL_MAP);
    let ghost t2 = s.trace();
    assert(cleared(k, VLAN_ACL_MAP@, since(t1, t2), seen(c2)));
    proof {
        lemma_since(t0, t1, t2);
    }
    if let Err(e) = c2 {
        assert(since(t1, t2) =~= since(t1, t2) + none);
        assert(applied_after_rules(k, *config, since(t1, t2), Err(e@)));
        return Err(e);
    }
    let steps = make_plan(config);
    let p = run_steps(k, s, &steps);
    let ghost t3 = s.trace();
    assert(steps_run(k, plan(*config), since(t2, t3), seen(p)));
    proof {
        lemma_since(t1, t2, t3);
        lemma_since(t0, t1, t3);
    }
    if let Err(e) = p {
        assert(since(t2, t3) =~= since(t2, t3) + none);
        assert(plan_applied(k, *config, since(t2, t3), Err(e@)));
        assert(applied_after_rules(k, *config, since(t1, t3), Err(e@)));
        return Err(e);
    }
    let r = event_mask_set(k, s, event_mask_of(&config.logging));
    proof {
        let t4 = s.trace();
        lemma_since(t2, t3, t4);
        lemma_since(t1, t2, t4);
        lemma_since(t0, t1, t4);
        assert(plan_applied(k, *config, since(t2, t4), seen(r)));
        assert(applied_after_rules(k, *config, since(t1, t4), seen(r)));
    }
    r
}

/// The configuration was loaded from the file and applied; where it could not
/// be loaded nothing was changed.
pub open spec fn reloaded<H: Host>(
    h: &H,
    path: Seq<char>,
    done: Seq<Attempt>,
    r: Result<(), ErrorView>,
) -> bool {
    exists|p: String, reply: Result<Config, MapError>|
        {
            &&& p@ == path
            &&& #[trigger] call_ensures(H::load_config, (h, p), reply)
            &&& match reply {
                Err(e) => r == Err::<(), ErrorView>(e@) && done.len() == 0,
                Ok(config) => applied(h, config, done, r),
            }
        }
}

/// Loads a configuration file and applies it.
pub fn reload_config<H: Host, W: Writer>(h: &H, s: &mut Session<W>, path: &str) -> (r: Result<
    (),
    MapError,
>)
    ensures
        extends(old(s).trace(), final(s).trace()),
        final(s).writer() == old(s).writer(),
        reloaded(h, path@, since(old(s).trace(), final(s).trace()), seen(r)),
{
    proof {
        lemma_same(s.trace());
    }
    let p = path.to_owned();
    let reply = h.load_config(p);
    assert(call_ensures(H::load_config, (h, p), reply));
    match reply {
        Err(e) => Err(e),
        Ok(config) => apply_config(h, s, &config),
    }
}

} // verus!
