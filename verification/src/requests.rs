//! What the lines of the tool ask of the daemon.
use vstd::prelude::*;

use crate::acl_key::{parsed_proto, AddrView, Proto};
use crate::agreement::lemma_protocol_words;
use crate::ctl::cli::{
    acl_add_ran, action_word, add_options, iface_names, iface_of, option_index, option_value,
    parsed_add, parsed_endpoint, proto_names, strip, vlan_options, AddRequest, OutcomeView, Shell,
};
use crate::ctl::client::Exchange;
use crate::ctl::monitor::with_kind;
use crate::ctl::run::tool_ran;
use crate::maps::EventKind;
use crate::protocol::{CommandView, ResponseView};
use crate::text::{decimal, lemma_digits_only, lower_text, lowercase_text, number_roundtrip};

verus! {

// ---- Words ----

/// The word at `i` is the first of the names, and a word follows it.
pub open spec fn first_named(names: Seq<Seq<char>>, args: Seq<Seq<char>>, i: int) -> bool {
    &&& 0 <= i < args.len() - 1
    &&& names.contains(args[i])
    &&& forall|j: int| 0 <= j < i ==> !names.contains(#[trigger] args[j])
}

/// The word that follows the first of the names; none where no name has a word
/// behind it.
pub open spec fn word_behind(
    names: Seq<Seq<char>>,
    args: Seq<Seq<char>>,
    word: Option<Seq<char>>,
) -> bool {
    match word {
        Some(w) => exists|i: int| #[trigger] first_named(names, args, i) && args[i + 1] == w,
        None => forall|j: int| 0 <= j < args.len() - 1 ==> !names.contains(#[trigger] args[j]),
    }
}

proof fn lemma_option_index(names: Seq<Seq<char>>, args: Seq<Seq<char>>, n: nat)
    requires
        n <= args.len(),
    ensures
        match option_index(names, args, n) {
            Some(i) => i < n && first_named(names, args, i),
            None => forall|j: int|
                0 <= j < n && j < args.len() - 1 ==> !names.contains(#[trigger] args[j]),
        },
    decreases n,
{
    if n > 0 {
        lemma_option_index(names, args, (n - 1) as nat);
    }
}

/// The value of an option is the word behind the first of its names.
pub proof fn option_is_the_word_behind_its_name(
    names: Seq<Seq<char>>,
    args: Seq<Seq<char>>,
    word: Option<Seq<char>>,
)
    ensures
        word_behind(names, args, word) <==> option_value(names, args) == word,
{
    lemma_option_index(names, args, args.len());
    match option_index(names, args, args.len()) {
        Some(i) => {
            assert(first_named(names, args, i));
            if word_behind(names, args, word) {
                match word {
                    Some(w) => {
                        let k = choose|k: int| #[trigger]
                            first_named(names, args, k) && args[k + 1] == w;
                        assert(names.contains(args[i]) && names.contains(args[k]));
                        assert(k == i);
                    },
                    None => {
                        assert(!names.contains(args[i]));
                    },
                }
            }
        },
        None => {
            if word_behind(names, args, word) && word is Some {
                let k = choose|k: int| #[trigger]
                    first_named(names, args, k) && args[k + 1] == word->0;
                assert(!names.contains(args[k]));
            }
        },
    }
}

/// Words that are no options stay, in front of what follows them.
pub proof fn leading_words_stay(names: Seq<Seq<char>>, args: Seq<Seq<char>>, n: int)
    requires
        0 <= n <= args.len(),
        forall|j: int| 0 <= j < n ==> !names.contains(#[trigger] args[j]),
    ensures
        strip(names, args).0.len() >= n,
        forall|j: int| 0 <= j < n ==> #[trigger] strip(names, args).0[j] == args[j],
        n == args.len() ==> !strip(names, args).1 && strip(names, args).0.len() == n,
    decreases args.len(),
{
    if args.len() > 0 {
        let before = args.drop_last();
        if n == args.len() {
            assert forall|j: int| 0 <= j < n - 1 implies !names.contains(#[trigger] before[j]) by {
                assert(before[j] == args[j]);
            }
            leading_words_stay(names, before, n - 1);
            assert(args.last() == args[n - 1]);
        } else {
            assert forall|j: int| 0 <= j < n implies !names.contains(#[trigger] before[j]) by {
                assert(before[j] == args[j]);
            }
            leading_words_stay(names, before, n);
        }
    }
}

/// An option and its word are left out, whatever stands before and behind them.
pub proof fn options_are_left_out(
    names: Seq<Seq<char>>,
    before: Seq<Seq<char>>,
    name: Seq<char>,
    word: Seq<char>,
    after: Seq<Seq<char>>,
)
    requires
        names.contains(name),
        !strip(names, before).1,
    ensures
        strip(names, before + seq![name, word] + after) == strip(names, before + after),
    decreases after.len(),
{
    let all = before + seq![name, word] + after;
    if after.len() == 0 {
        let one = before.push(name);
        assert(all =~= one.push(word));
        assert(all.drop_last() =~= one);
        assert(one.drop_last() =~= before);
        assert(one.last() == name);
        assert(strip(names, one) == (strip(names, before).0, true));
        assert(all.last() == word);
        assert(strip(names, all) == (strip(names, before).0, false));
        assert(before + after =~= before);
    } else {
        options_are_left_out(names, before, name, word, after.drop_last());
        assert(all.drop_last() =~= before + seq![name, word] + after.drop_last());
        assert((before + after).drop_last() =~= before + after.drop_last());
        assert(all.last() == after.last() && (before + after).last() == after.last());
    }
}

proof fn lemma_names()
    ensures
        "acl"@ != "check-attach"@,
        "counters"@ != "check-attach"@ && "counters"@ != "acl"@,
        "conntrack"@ != "check-attach"@ && "conntrack"@ != "acl"@ && "conntrack"@ != "counters"@,
        "rate-limit"@ != "check-attach"@ && "rate-limit"@ != "acl"@ && "rate-limit"@ != "counters"@
            && "rate-limit"@ != "conntrack"@,
        "event-log"@ != "check-attach"@ && "event-log"@ != "acl"@ && "event-log"@ != "counters"@
            && "event-log"@ != "conntrack"@ && "event-log"@ != "rate-limit"@,
        "test"@ != "check-attach"@ && "test"@ != "acl"@ && "test"@ != "counters"@ && "test"@
            != "conntrack"@ && "test"@ != "rate-limit"@ && "test"@ != "event-log"@,
        "reload"@ != "check-attach"@ && "reload"@ != "acl"@ && "reload"@ != "counters"@ && "reload"@
            != "conntrack"@ && "reload"@ != "rate-limit"@ && "reload"@ != "event-log"@ && "reload"@
            != "test"@,
        "add"@ != "list"@,
        "del"@ != "list"@ && "del"@ != "add"@,
        "vlan"@ != "list"@ && "vlan"@ != "add"@ && "vlan"@ != "del"@,
        "reset"@ != "list"@,
        "enable"@ != "list"@ && "enable"@ != "reset"@,
        "disable"@ != "list"@ && "disable"@ != "reset"@ && "disable"@ != "enable"@,
        "allow"@ != "drop"@,
{
    reveal_strlit("acl");
    reveal_strlit("check-attach");
    reveal_strlit("counters");
    reveal_strlit("conntrack");
    reveal_strlit("rate-limit");
    reveal_strlit("event-log");
    reveal_strlit("test");
    reveal_strlit("reload");
    reveal_strlit("add");
    reveal_strlit("list");
    reveal_strlit("del");
    reveal_strlit("vlan");
    reveal_strlit("reset");
    reveal_strlit("enable");
    reveal_strlit("disable");
    reveal_strlit("allow");
    reveal_strlit("drop");
    assert("acl"@.len() == 3 && "acl"@[0] == 'a');
    assert("add"@.len() == 3 && "add"@[0] == 'a');
    assert("del"@.len() == 3 && "del"@[0] == 'd');
    assert("list"@.len() == 4 && "list"@[0] == 'l');
    assert("vlan"@.len() == 4 && "vlan"@[0] == 'v');
    assert("test"@.len() == 4 && "test"@[0] == 't');
    assert("drop"@.len() == 4 && "drop"@[0] == 'd');
    assert("reset"@.len() == 5 && "reset"@[0] == 'r');
    assert("allow"@.len() == 5 && "allow"@[0] == 'a');
    assert("enable"@.len() == 6 && "enable"@[0] == 'e');
    assert("reload"@.len() == 6 && "reload"@[0] == 'r');
    assert("disable"@.len() == 7 && "disable"@[0] == 'd');
    assert("counters"@.len() == 8 && "counters"@[0] == 'c');
    assert("conntrack"@.len() == 9 && "conntrack"@[0] == 'c');
    assert("event-log"@.len() == 9 && "event-log"@[0] == 'e');
    assert("rate-limit"@.len() == 10 && "rate-limit"@[0] == 'r');
    assert("check-attach"@.len() == 12 && "check-attach"@[0] == 'c');
}

proof fn lemma_no_option(word: Seq<char>)
    requires
        word == "allow"@ || word == "drop"@ || (word.len() > 0 && word[0] != '-' && word[0] != 'p'
            && word[0] != 's' && word[0] != 'd' && word[0] != 'r' && word[0] != 'i'),
    ensures
        !add_options().contains(word),
        !vlan_options().contains(word),
{
    reveal_strlit("allow");
    reveal_strlit("drop");
    reveal_strlit("--iface");
    reveal_strlit("-i");
    reveal_strlit("--proto");
    reveal_strlit("-p");
    reveal_strlit("proto");
    reveal_strlit("src");
    reveal_strlit("dst");
    reveal_strlit("rate");
    reveal_strlit("inner");
    assert("allow"@[0] == 'a' && "allow"@.len() == 5);
    assert("drop"@[0] == 'd' && "drop"@.len() == 4);
    assert("--iface"@[0] == '-' && "-i"@[0] == '-' && "--proto"@[0] == '-' && "-p"@[0] == '-');
    assert("proto"@[0] == 'p' && "src"@[0] == 's' && "dst"@[0] == 'd' && "rate"@[0] == 'r'
        && "inner"@[0] == 'i');
    assert("dst"@.len() == 3 && "rate"@.len() == 4);
    if add_options().contains(word) {
        let i = choose|i: int| 0 <= i < add_options().len() && add_options()[i] == word;
        assert(i == 0 || i == 1 || i == 2 || i == 3 || i == 4 || i == 5 || i == 6 || i == 7);
        assert(false);
    }
    if vlan_options().contains(word) {
        let i = choose|i: int| 0 <= i < vlan_options().len() && vlan_options()[i] == word;
        assert(i == 0 || i == 1 || i == 2 || i == 3);
        assert(false);
    }
}

// ---- Requests ----

/// One command was sent, and only that.
pub open spec fn sent(
    before: Seq<Exchange>,
    command: CommandView,
    after: Seq<Exchange>,
) -> bool {
    &&& after.len() == before.len() + 1
    &&& forall|i: int| 0 <= i < before.len() ==> #[trigger] after[i] == before[i]
    &&& after.last().command == command
}

/// The daemon took the command.
pub open spec fn taken(after: Seq<Exchange>) -> bool {
    after.last().reply matches Ok(a) && a is Success
}

/// The interface that a line names, `end0` where it names none.
pub open spec fn interface(word: Option<Seq<char>>) -> Seq<char> {
    match word {
        Some(w) => w,
        None => "end0"@,
    }
}

proof fn lemma_sent(before: Seq<Exchange>, after: Seq<Exchange>)
    requires
        after.len() == before.len() + 1,
        after.drop_last() == before,
    ensures
        forall|i: int| 0 <= i < before.len() ==> #[trigger] after[i] == before[i],
{
    assert forall|i: int| 0 <= i < before.len() implies #[trigger] after[i] == before[i] by {
        assert(after.drop_last()[i] == after[i]);
    }
}

proof fn lemma_interface(args: Seq<Seq<char>>, word: Option<Seq<char>>)
    requires
        word_behind(seq!["--iface"@, "-i"@], args, word),
    ensures
        iface_of(args) == interface(word),
{
    assert(iface_names() =~= seq!["--iface"@, "-i"@]);
    option_is_the_word_behind_its_name(iface_names(), args, word);
}

proof fn lemma_protocols()
    ensures
        parsed_proto("tcp"@) == Ok::<Proto, Seq<char>>(Proto::Tcp),
        parsed_proto("udp"@) == Ok::<Proto, Seq<char>>(Proto::Udp),
        "tcp"@ != "udp"@,
{
    reveal_strlit("tcp");
    reveal_strlit("udp");
    assert(lower_text("tcp"@) =~= "tcp"@);
    assert(lower_text("udp"@) =~= "udp"@);
    assert("tcp"@[0] == 't' && "udp"@[0] == 'u');
}

/// The protocol of a word, TCP where there is none.
pub open spec fn transport(word: Option<Seq<char>>) -> Proto {
    if word == Some("udp"@) {
        Proto::Udp
    } else {
        Proto::Tcp
    }
}

proof fn lemma_parsed_add(
    rest: Seq<Seq<char>>,
    src: Seq<char>,
    dst: Seq<char>,
    proto: Option<Seq<char>>,
    rate: Option<u32>,
)
    requires
        rest.len() >= 1,
        rest[0] == "allow"@ || rest[0] == "drop"@,
        word_behind(seq!["src"@], rest, Some(src)),
        word_behind(seq!["dst"@], rest, Some(dst)),
        word_behind(seq!["--proto"@, "-p"@, "proto"@], rest, proto),
        proto matches Some(p) ==> p == "tcp"@ || p == "udp"@,
        word_behind(
            seq!["rate"@],
            rest,
            match rate {
                Some(n) => Some(decimal(n as int)),
                None => None,
            },
        ),
    ensures
        ({
            let a = parsed_endpoint(src, "src"@, transport(proto));
            let b = parsed_endpoint(dst, "dst"@, transport(proto));
            match parsed_add(rest) {
                Ok(q) => {
                    &&& a is Ok && b is Ok
                    &&& q.src == src && q.dst == dst
                    &&& action_word(q.rule.action) == rest[0]
                    &&& q.rule.proto == transport(proto)
                    &&& q.rule.rate == match rate {
                        Some(n) => n,
                        None => 0,
                    }
                },
                Err(_) => a is Err || b is Err,
            }
        }),
{
    lemma_names();
    lemma_protocols();
    lemma_no_option(rest[0]);
    leading_words_stay(add_options(), rest, 1);
    assert(strip(add_options(), rest).0[0] == rest[0]);
    option_is_the_word_behind_its_name(seq!["src"@], rest, Some(src));
    option_is_the_word_behind_its_name(seq!["dst"@], rest, Some(dst));
    assert(proto_names() =~= seq!["--proto"@, "-p"@, "proto"@]);
    option_is_the_word_behind_its_name(proto_names(), rest, proto);
    let word = match rate {
        Some(n) => Some(decimal(n as int)),
        None => None,
    };
    option_is_the_word_behind_its_name(seq!["rate"@], rest, word);
    if let Some(n) = rate {
        number_roundtrip(n as int, 10, 0xffff_ffff);
    }
}

proof fn lemma_add_line<S: Shell>(
    s: &S,
    before: Seq<Exchange>,
    args: Seq<Seq<char>>,
    after: Seq<Exchange>,
    r: OutcomeView,
)
    requires
        tool_ran(s, before, args, after, r),
        args.len() >= 2,
        args[0] == "acl"@ && args[1] == "add"@,
    ensures
        acl_add_ran(before, args.skip(2), after, r),
{
    lemma_names();
    assert(args.skip(1).skip(1) =~= args.skip(2));
    assert(args.skip(1)[0] == args[1]);
}

proof fn lemma_added(
    before: Seq<Exchange>,
    rest: Seq<Seq<char>>,
    after: Seq<Exchange>,
    r: OutcomeView,
    q: AddRequest,
)
    requires
        acl_add_ran(before, rest, after, r),
        parsed_add(rest) == Ok::<AddRequest, Seq<char>>(q),
        !rest.contains("--print-key"@) && !rest.contains("-n"@),
    ensures
        after.len() == before.len() + 1,
        after.drop_last() == before,
        after.last().command == (CommandView::AclAdd {
            iface: iface_of(rest),
            action: action_word(q.rule.action),
            src: q.src,
            dst: q.dst,
            proto: Some(q.rule.proto.spec_name()),
            rate: if q.rule.rate > 0 {
                Some(q.rule.rate)
            } else {
                None
            },
        }),
        r.result is Ok <==> taken(after),
{
}

/// `acl add` asks for the rule that it names: its action, the words behind `src`
/// and `dst` as they are, the protocol and the rate. Where an end cannot be read
/// nothing is sent, and the line fails; so it does where the daemon refuses.
pub proof fn add_line_asks_for_its_rule<S: Shell>(
    s: &S,
    before: Seq<Exchange>,
    args: Seq<Seq<char>>,
    after: Seq<Exchange>,
    r: OutcomeView,
    iface: Option<Seq<char>>,
    src: Seq<char>,
    dst: Seq<char>,
    proto: Option<Seq<char>>,
    rate: Option<u32>,
)
    requires
        tool_ran(s, before, args, after, r),
        args.len() >= 3,
        args[0] == "acl"@ && args[1] == "add"@,
        args[2] == "allow"@ || args[2] == "drop"@,
        word_behind(seq!["--iface"@, "-i"@], args.skip(2), iface),
        word_behind(seq!["src"@], args.skip(2), Some(src)),
        word_behind(seq!["dst"@], args.skip(2), Some(dst)),
        word_behind(seq!["--proto"@, "-p"@, "proto"@], args.skip(2), proto),
        proto matches Some(p) ==> p == "tcp"@ || p == "udp"@,
        word_behind(
            seq!["rate"@],
            args.skip(2),
            match rate {
                Some(n) => Some(decimal(n as int)),
                None => None,
            },
        ),
        !args.skip(2).contains("--print-key"@) && !args.skip(2).contains("-n"@),
    ensures
        parsed_endpoint(src, "src"@, transport(proto)) is Ok && parsed_endpoint(
            dst,
            "dst"@,
            transport(proto),
        ) is Ok ==> {
            &&& sent(
                before,
                CommandView::AclAdd {
                    iface: interface(iface),
                    action: args[2],
                    src,
                    dst,
                    proto: Some(
                        if proto == Some("udp"@) {
                            "udp"@
                        } else {
                            "tcp"@
                        },
                    ),
                    rate: if rate == Some(0u32) {
                        None
                    } else {
                        rate
                    },
                },
                after,
            )
            &&& r.result is Ok <==> taken(after)
        },
        parsed_endpoint(src, "src"@, transport(proto)) is Err || parsed_endpoint(
            dst,
            "dst"@,
            transport(proto),
        ) is Err ==> after == before && r.result is Err,
{
    let rest = args.skip(2);
    lemma_add_line(s, before, args, after, r);
    assert(rest[0] == args[2]);
    lemma_interface(rest, iface);
    lemma_parsed_add(rest, src, dst, proto, rate);
    lemma_protocols();
    match parsed_add(rest) {
        Ok(q) => {
            lemma_added(before, rest, after, r, q);
            assert(q.rule.proto.spec_name() == if proto == Some("udp"@) {
                "udp"@
            } else {
                "tcp"@
            });
            lemma_sent(before, after);
        },
        Err(_) => {},
    }
}

/// `acl add` for the control protocol asks for the one of the addresses: that of
/// IPv6 exactly where both ends are IPv6.
#[verifier::rlimit(40)]
pub proof fn control_protocol_follows_the_addresses<S: Shell>(
    s: &S,
    before: Seq<Exchange>,
    args: Seq<Seq<char>>,
    after: Seq<Exchange>,
    r: OutcomeView,
    src: Seq<char>,
    dst: Seq<char>,
    a: AddrView,
    b: AddrView,
)
    requires
        tool_ran(s, before, args, after, r),
        args.len() >= 3,
        args[0] == "acl"@ && args[1] == "add"@,
        args[2] == "allow"@ || args[2] == "drop"@,
        word_behind(seq!["src"@], args.skip(2), Some(src)),
        word_behind(seq!["dst"@], args.skip(2), Some(dst)),
        word_behind(seq!["--proto"@, "-p"@, "proto"@], args.skip(2), Some("icmp"@)),
        !args.skip(2).contains("--print-key"@) && !args.skip(2).contains("-n"@),
        parsed_endpoint(src, "src"@, Proto::Icmp) matches Ok(e) && e.0 == a,
        parsed_endpoint(dst, "dst"@, Proto::Icmp) matches Ok(e) && e.0 == b,
    ensures
        after.len() == before.len() + 1,
        after.last().command matches CommandView::AclAdd { src: s1, dst: d1, action, proto, .. }
            && {
            &&& s1 == src && d1 == dst && action == args[2]
            &&& proto == Some(
                if a.v6 && b.v6 {
                    "icmpv6"@
                } else {
                    "icmp"@
                },
            )
        },
{
    let rest = args.skip(2);
    lemma_names();
    lemma_add_line(s, before, args, after, r);
    assert(rest[0] == args[2]);
    lemma_no_option(rest[0]);
    leading_words_stay(add_options(), rest, 1);
    assert(strip(add_options(), rest).0[0] == rest[0]);
    option_is_the_word_behind_its_name(seq!["src"@], rest, Some(src));
    option_is_the_word_behind_its_name(seq!["dst"@], rest, Some(dst));
    assert(proto_names() =~= seq!["--proto"@, "-p"@, "proto"@]);
    option_is_the_word_behind_its_name(proto_names(), rest, Some("icmp"@));
    lemma_protocol_words("icmp"@, Proto::Icmp);
    assert(parsed_add(rest) is Ok);
    lemma_added(before, rest, after, r, parsed_add(rest)->Ok_0);
}

/// A line that asks for the key of a rule sends nothing.
pub proof fn printing_a_key_sends_nothing<S: Shell>(
    s: &S,
    before: Seq<Exchange>,
    args: Seq<Seq<char>>,
    after: Seq<Exchange>,
    r: OutcomeView,
)
    requires
        tool_ran(s, before, args, after, r),
        args.len() >= 2,
        args[0] == "acl"@ && args[1] == "add"@,
        args.skip(2).contains("--print-key"@) || args.skip(2).contains("-n"@),
    ensures
        after == before,
{
    lemma_names();
    assert(args.skip(1).skip(1) =~= args.skip(2));
    assert(args.skip(1)[0] == args[1]);
}

/// `acl del` and `acl vlan del` ask for the rule of the number behind `--id` to
/// be deleted, each in its own list.
pub proof fn del_line_asks_for_its_number<S: Shell>(
    s: &S,
    before: Seq<Exchange>,
    args: Seq<Seq<char>>,
    after: Seq<Exchange>,
    r: OutcomeView,
    iface: Option<Seq<char>>,
    id: usize,
    vlan: bool,
)
    requires
        tool_ran(s, before, args, after, r),
        args.len() >= 3,
        args[0] == "acl"@,
        vlan ==> args[1] == "vlan"@ && args[2] == "del"@,
        !vlan ==> args[1] == "del"@,
        word_behind(
            seq!["--iface"@, "-i"@],
            args.skip(if vlan {
                3
            } else {
                2
            }),
            iface,
        ),
        word_behind(
            seq!["--id"@],
            args.skip(if vlan {
                3
            } else {
                2
            }),
            Some(decimal(id as int)),
        ),
    ensures
        sent(
            before,
            if vlan {
                CommandView::AclVlanDel { iface: interface(iface), id }
            } else {
                CommandView::AclDel { iface: interface(iface), id }
            },
            after,
        ),
        r.result is Ok <==> taken(after),
{
    lemma_names();
    assert(args.skip(1)[0] == args[1]);
    assert(args.skip(1).skip(1) =~= args.skip(2));
    assert(args.skip(2)[0] == args[2]);
    assert(args.skip(2).skip(1) =~= args.skip(3));
    let rest = args.skip(
        if vlan {
            3
        } else {
            2
        },
    );
    lemma_interface(rest, iface);
    option_is_the_word_behind_its_name(seq!["--id"@], rest, Some(decimal(id as int)));
    number_roundtrip(id as int, 10, usize::MAX as int);
    lemma_sent(before, after);
}

/// `acl vlan add` asks for a rule for the tag that it names, with its action and
/// the inner tag and the rate that stand behind their names.
pub proof fn vlan_line_asks_for_its_rule<S: Shell>(
    s: &S,
    before: Seq<Exchange>,
    args: Seq<Seq<char>>,
    after: Seq<Exchange>,
    r: OutcomeView,
    iface: Option<Seq<char>>,
    tag: u16,
    inner: Option<u16>,
    rate: Option<u32>,
)
    requires
        tool_ran(s, before, args, after, r),
        args.len() >= 5,
        args[0] == "acl"@ && args[1] == "vlan"@ && args[2] == "add"@,
        args[3] == decimal(tag as int),
        args[4] == "allow"@ || args[4] == "drop"@,
        word_behind(seq!["--iface"@, "-i"@], args.skip(3), iface),
        word_behind(
            seq!["inner"@],
            args.skip(3),
            match inner {
                Some(n) => Some(decimal(n as int)),
                None => None,
            },
        ),
        word_behind(
            seq!["rate"@],
            args.skip(3),
            match rate {
                Some(n) => Some(decimal(n as int)),
                None => None,
            },
        ),
    ensures
        sent(
            before,
            CommandView::AclVlanAdd {
                iface: interface(iface),
                vlan_id: tag,
                action: args[4],
                inner_vlan: inner,
                rate,
            },
            after,
        ),
        r.result is Ok <==> taken(after),
{
    let rest = args.skip(3);
    lemma_names();
    assert(args.skip(1)[0] == args[1]);
    assert(args.skip(1).skip(1) =~= args.skip(2));
    assert(args.skip(2)[0] == args[2]);
    assert(args.skip(2).skip(1) =~= rest);
    assert(rest[0] == args[3] && rest[1] == args[4]);
    lemma_digits_only(tag as int, 10, '-');
    lemma_digits_only(tag as int, 10, 'p');
    lemma_digits_only(tag as int, 10, 's');
    lemma_digits_only(tag as int, 10, 'r');
    lemma_digits_only(tag as int, 10, 'i');
    lemma_decimal_start(tag as int);
    lemma_no_option(args[3]);
    lemma_no_option(args[4]);
    assert forall|j: int| 0 <= j < 2 implies !vlan_options().contains(#[trigger] rest[j]) by {
        assert(j == 0 || j == 1);
    }
    leading_words_stay(vlan_options(), rest, 2);
    assert(strip(vlan_options(), rest).0[0] == rest[0]);
    assert(strip(vlan_options(), rest).0[1] == rest[1]);
    lemma_interface(rest, iface);
    let inner_word = match inner {
        Some(n) => Some(decimal(n as int)),
        None => None,
    };
    let rate_word = match rate {
        Some(n) => Some(decimal(n as int)),
        None => None,
    };
    option_is_the_word_behind_its_name(seq!["inner"@], rest, inner_word);
    option_is_the_word_behind_its_name(seq!["rate"@], rest, rate_word);
    number_roundtrip(tag as int, 10, 65535);
    if let Some(n) = inner {
        number_roundtrip(n as int, 10, 65535);
    }
    if let Some(n) = rate {
        number_roundtrip(n as int, 10, 0xffff_ffff);
    }
    lemma_sent(before, after);
}

proof fn lemma_decimal_start(n: int)
    requires
        0 <= n,
    ensures
        decimal(n).len() > 0,
        decimal(n)[0] != 'd',
{
    crate::text::lemma_digits(n, 10);
    let d = crate::text::digits(n, 10);
    assert(crate::text::all_digits(d, 10));
    assert(crate::text::digit_value(d[0]) < 10);
}

/// The lines that show something ask for just that, for the interface that they
/// name, and print a count as it came.
pub proof fn show_lines_ask_for_their_table<S: Shell>(
    s: &S,
    before: Seq<Exchange>,
    args: Seq<Seq<char>>,
    after: Seq<Exchange>,
    r: OutcomeView,
    iface: Option<Seq<char>>,
)
    requires
        tool_ran(s, before, args, after, r),
        args.len() >= 2,
        word_behind(seq!["--iface"@, "-i"@], args.skip(2), iface),
    ensures
        args[0] == "acl"@ && args[1] == "list"@ ==> sent(
            before,
            CommandView::AclList { iface: interface(iface) },
            after,
        ),
        args[0] == "counters"@ && args[1] == "show"@ ==> sent(
            before,
            CommandView::CountersShow { iface: interface(iface) },
            after,
        ),
        args[0] == "conntrack"@ && args[1] == "show"@ ==> sent(
            before,
            CommandView::ConntrackShow { iface: interface(iface) },
            after,
        ) && (after.last().reply matches Ok(ResponseView::CountResult(n)) ==> r.out
            == "conntrack entries: "@ + decimal(n as int) + "\n"@),
        args[0] == "rate-limit"@ && args[1] == "show"@ ==> sent(
            before,
            CommandView::RateLimitShow { iface: interface(iface) },
            after,
        ) && (after.last().reply matches Ok(ResponseView::CountResult(n)) ==> r.out
            == "rate-limit entries: "@ + decimal(n as int) + "\n"@),
{
    lemma_names();
    assert(args.skip(1)[0] == args[1]);
    assert(args.skip(1).skip(1) =~= args.skip(2));
    lemma_interface(args.skip(2), iface);
    if after.len() == before.len() + 1 && after.drop_last() == before {
        lemma_sent(before, after);
    }
}

/// `acl vlan list` asks for the tag rules, `reload` for a configuration to be
/// loaded, `check-attach` for the attachment of the interface that it names, and
/// the last says by its exit code whether there is one. `test` asks nothing.
pub proof fn other_lines_ask_for_one_thing<S: Shell>(
    s: &S,
    before: Seq<Exchange>,
    args: Seq<Seq<char>>,
    after: Seq<Exchange>,
    r: OutcomeView,
    iface: Option<Seq<char>>,
)
    requires
        tool_ran(s, before, args, after, r),
        args.len() >= 1,
    ensures
        args[0] == "acl"@ && args.len() >= 3 && args[1] == "vlan"@ && args[2] == "list"@
            && word_behind(seq!["--iface"@, "-i"@], args.skip(3), iface) ==> sent(
            before,
            CommandView::AclVlanList { iface: interface(iface) },
            after,
        ),
        args[0] == "reload"@ ==> sent(
            before,
            CommandView::ConfigReload {
                path: if args.len() == 1 {
                    None
                } else {
                    Some(args[1])
                },
            },
            after,
        ) && (r.result is Ok <==> taken(after)),
        args[0] == "check-attach"@ && word_behind(
            seq!["--iface"@, "-i"@],
            args.skip(1),
            iface,
        ) ==> match iface {
            None => after == before && r.result is Err,
            Some(name) => {
                &&& sent(before, CommandView::CheckXdpAttached { iface: name }, after)
                &&& after.last().reply matches Ok(
                    ResponseView::AttachmentResult { attached, .. },
                ) ==> r.result == Ok::<i32, Seq<char>>(
                    if attached {
                        0
                    } else {
                        2
                    },
                )
            },
        },
        args[0] == "test"@ ==> after == before,
{
    lemma_names();
    if args.len() >= 2 {
        assert(args.skip(1)[0] == args[1]);
    }
    if args.len() >= 3 {
        assert(args.skip(1).skip(1) =~= args.skip(2));
        assert(args.skip(2)[0] == args[2]);
        assert(args.skip(2).skip(1) =~= args.skip(3));
        if word_behind(seq!["--iface"@, "-i"@], args.skip(3), iface) {
            lemma_interface(args.skip(3), iface);
        }
    }
    assert(iface_names() =~= seq!["--iface"@, "-i"@]);
    option_is_the_word_behind_its_name(iface_names(), args.skip(1), iface);
    if after.len() == before.len() + 1 && after.drop_last() == before {
        lemma_sent(before, after);
    }
}

// ---- Events ----

/// The word of a kind.
pub open spec fn kind_word(kind: EventKind) -> Seq<char> {
    match kind {
        EventKind::PacketDrop => "packet-drop"@,
        EventKind::RateLimited => "rate-limited"@,
        EventKind::ConntrackMiss => "conntrack-miss"@,
        EventKind::BackendSelected => "backend-selected"@,
        EventKind::SlowPath => "slow-path"@,
        EventKind::ServiceMatched => "service-matched"@,
        EventKind::VlanDetected => "vlan-detected"@,
        EventKind::PacketAllow => "packet-allow"@,
    }
}

/// The bit of a kind.
pub open spec fn kind_bit(kind: EventKind) -> u64 {
    match kind {
        EventKind::PacketDrop => 1,
        EventKind::RateLimited => 2,
        EventKind::ConntrackMiss => 3,
        EventKind::BackendSelected => 4,
        EventKind::SlowPath => 5,
        EventKind::ServiceMatched => 6,
        EventKind::VlanDetected => 7,
        EventKind::PacketAllow => 8,
    }
}

/// A bit of a mask.
pub open spec fn bit(mask: u64, b: u64) -> bool {
    (mask >> b) & 1 == 1
}

proof fn lemma_kind_words(kind: EventKind)
    ensures
        crate::ctl::monitor::kind_named(kind_word(kind)) == Some(kind),
{
    reveal_strlit("packetdrop");
    reveal_strlit("packet-drop");
    reveal_strlit("drop");
    reveal_strlit("ratelimited");
    reveal_strlit("rate-limited");
    reveal_strlit("conntrackmiss");
    reveal_strlit("conntrack-miss");
    reveal_strlit("backendselected");
    reveal_strlit("backend-selected");
    reveal_strlit("slowpath");
    reveal_strlit("slow-path");
    reveal_strlit("servicematched");
    reveal_strlit("service-matched");
    reveal_strlit("vlandetected");
    reveal_strlit("vlan-detected");
    reveal_strlit("packetallow");
    reveal_strlit("packet-allow");
    assert("packetdrop"@.len() == 10 && "packetdrop"@[0] == 'p');
    assert("packet-drop"@.len() == 11 && "packet-drop"@[0] == 'p');
    assert("drop"@.len() == 4 && "drop"@[0] == 'd');
    assert("ratelimited"@.len() == 11 && "ratelimited"@[0] == 'r');
    assert("rate-limited"@.len() == 12 && "rate-limited"@[0] == 'r');
    assert("conntrackmiss"@.len() == 13 && "conntrackmiss"@[0] == 'c');
    assert("conntrack-miss"@.len() == 14 && "conntrack-miss"@[0] == 'c');
    assert("backendselected"@.len() == 15 && "backendselected"@[0] == 'b');
    assert("backend-selected"@.len() == 16 && "backend-selected"@[0] == 'b');
    assert("slowpath"@.len() == 8 && "slowpath"@[0] == 's');
    assert("slow-path"@.len() == 9 && "slow-path"@[0] == 's');
    assert("servicematched"@.len() == 14 && "servicematched"@[0] == 's');
    assert("service-matched"@.len() == 15 && "service-matched"@[0] == 's');
    assert("vlandetected"@.len() == 12 && "vlandetected"@[0] == 'v');
    assert("vlan-detected"@.len() == 13 && "vlan-detected"@[0] == 'v');
    assert("packetallow"@.len() == 11 && "packetallow"@[0] == 'p');
    assert("packet-allow"@.len() == 12 && "packet-allow"@[0] == 'p');
    assert("packet-drop"@[6] == '-' && "packetallow"@[6] == 'a');
}

/// `event-log enable` and `event-log disable` read the mask and store it with
/// the bit of the kind set or cleared and every other bit as it was. Where the
/// mask cannot be read nothing is stored.
pub proof fn event_lines_change_one_bit<S: Shell>(
    s: &S,
    before: Seq<Exchange>,
    args: Seq<Seq<char>>,
    after: Seq<Exchange>,
    r: OutcomeView,
    kind: EventKind,
    enable: bool,
    b: u64,
)
    requires
        tool_ran(s, before, args, after, r),
        args.len() == 3,
        args[0] == "event-log"@,
        args[1] == if enable {
            "enable"@
        } else {
            "disable"@
        },
        lowercase_text(args[2]) == kind_word(kind),
        b < 64,
    ensures
        after.len() > before.len(),
        after[before.len() as int].command is EventMaskGet,
        match after[before.len() as int].reply {
            Ok(ResponseView::MaskResult(mask)) => {
                &&& after.len() == before.len() + 2
                &&& after.last().command matches CommandView::EventMaskSet { mask: new }
                &&& bit(new, b) == if b == kind_bit(kind) {
                    enable
                } else {
                    bit(mask, b)
                }
                &&& r.result is Ok <==> taken(after)
            },
            _ => after.len() == before.len() + 1 && r.result is Err,
        },
{
    lemma_names();
    lemma_kind_words(kind);
    let rest = args.skip(1);
    assert(rest[0] == args[1] && rest[1] == args[2]);
    let at = before.len() as int;
    let middle = after.drop_last();
    if middle.len() == before.len() + 1 {
        assert(middle.last() == after[at]);
        let mask = after[at].reply->Ok_0->MaskResult_0;
        let a = kind_bit(kind);
        assert(a == kind.spec_code());
        assert((((mask | (1u64 << a)) >> b) & 1 == 1) == (a == b || (mask >> b) & 1 == 1))
            by (bit_vector)
            requires
                a < 64,
                b < 64,
        ;
        assert((((mask & !(1u64 << a)) >> b) & 1 == 1) == (a != b && (mask >> b) & 1 == 1))
            by (bit_vector)
            requires
                a < 64,
                b < 64,
        ;
        assert(with_kind(mask, kind, true) == mask | (1u64 << a));
        assert(with_kind(mask, kind, false) == mask & !(1u64 << a));
    } else {
        assert(after.last() == after[at]);
    }
}

} // verus!
