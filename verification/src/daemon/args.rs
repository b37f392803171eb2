//! The arguments of the daemon.
use vstd::prelude::*;

use crate::text::{after_prefix, parse_number, read_number, same, starts, texts, told};

verus! {

/// The configuration that is loaded where none is named.
pub const DEFAULT_CONFIG: &'static str = "config2.yml";

/// What the daemon is asked to do.
#[derive(Debug)]
pub enum Invocation {
    Help,
    Run { prog_id: Option<i32>, config_path: String },
}

#[verifier::ext_equal]
pub enum InvocationView {
    Help,
    Run { prog_id: Option<i32>, config_path: Seq<char> },
}

impl View for Invocation {
    type V = InvocationView;

    open spec fn view(&self) -> InvocationView {
        match self {
            Invocation::Help => InvocationView::Help,
            Invocation::Run { prog_id, config_path } => InvocationView::Run {
                prog_id: *prog_id,
                config_path: config_path@,
            },
        }
    }
}

/// The signed number a text writes.
pub open spec fn parse_signed(s: Seq<char>) -> Option<i32> {
    if starts(s, "-"@) {
        let rest = s.skip("-"@.len() as int);
        if starts(rest, "+"@) {
            None
        } else {
            match parse_number(rest, 10, 0x8000_0000) {
                Some(n) => Some((-n) as i32),
                None => None,
            }
        }
    } else {
        match parse_number(s, 10, 0x7fff_ffff) {
            Some(n) => Some(n as i32),
            None => None,
        }
    }
}

fn read_signed(s: &str) -> (r: Option<i32>)
    ensures
        r == parse_signed(s@),
{
    match after_prefix(s, "-") {
        Some(rest) => match after_prefix(rest.as_str(), "+") {
            Some(_) => None,
            None => match read_number(rest.as_str(), 10, 0x8000_0000) {
                Some(n) => Some((-(n as i64)) as i32),
                None => None,
            },
        },
        None => match read_number(s, 10, 0x7fff_ffff) {
            Some(n) => Some(n as i32),
            None => None,
        },
    }
}

/// The index of the first argument that is `name`, among the first `n`.
pub open spec fn first_index(args: Seq<Seq<char>>, name: Seq<char>, n: nat) -> Option<int>
    decreases n,
{
    if n == 0 {
        None
    } else {
        match first_index(args, name, (n - 1) as nat) {
            Some(i) => Some(i),
            None => if args[n - 1] == name {
                Some(n - 1)
            } else {
                None
            },
        }
    }
}

proof fn lemma_first_index(args: Seq<Seq<char>>, name: Seq<char>, i: nat, n: nat)
    requires
        i <= n,
        first_index(args, name, i) is Some,
    ensures
        first_index(args, name, n) == first_index(args, name, i),
    decreases n,
{
    if i < n {
        lemma_first_index(args, name, i, (n - 1) as nat);
    }
}

fn position(args: &Vec<String>, name: &str) -> (r: Option<usize>)
    ensures
        match r {
            Some(i) => i < args@.len() && first_index(texts(args@), name@, args@.len()) == Some(
                i as int,
            ),
            None => first_index(texts(args@), name@, args@.len()) is None,
        },
{
    let mut i: usize = 0;
    while i < args.len()
        invariant
            i <= args@.len(),
            first_index(texts(args@), name@, i as nat) is None,
        decreases args@.len() - i,
    {
        assert(texts(args@)[i as int] == args@[i as int]@);
        if same(args[i].as_str(), name) {
            proof {
                lemma_first_index(texts(args@), name@, (i + 1) as nat, args@.len());
            }
            return Some(i);
        }
        i += 1;
    }
    None
}

/// Help is asked for by one of the arguments.
pub open spec fn wants_help(args: Seq<Seq<char>>) -> bool {
    args.contains("--help"@) || args.contains("-h"@)
}

/// The program that is named: the number behind the first `--prog-id`.
pub open spec fn named_program(args: Seq<Seq<char>>) -> Option<i32> {
    match first_index(args, "--prog-id"@, args.len()) {
        Some(i) => if i + 1 < args.len() {
            parse_signed(args[i + 1])
        } else {
            None
        },
        None => None,
    }
}

/// The configuration that is named from `i` on: what follows the last
/// `--config`, whose path is passed over, or `path` where there is none.
pub open spec fn named_config(args: Seq<Seq<char>>, i: int, path: Seq<char>) -> Result<
    Seq<char>,
    Seq<char>,
>
    decreases args.len() - i,
{
    if i >= args.len() {
        Ok(path)
    } else if args[i] != "--config"@ {
        named_config(args, i + 1, path)
    } else if i + 1 < args.len() {
        named_config(args, i + 2, args[i + 1])
    } else {
        Err("--config requires a path argument"@)
    }
}

/// What the arguments ask for.
pub open spec fn invocation(args: Seq<Seq<char>>) -> Result<InvocationView, Seq<char>> {
    if wants_help(args) {
        Ok(InvocationView::Help)
    } else {
        match named_config(args, 0, DEFAULT_CONFIG@) {
            Err(e) => Err(e),
            Ok(config_path) => Ok(
                InvocationView::Run { prog_id: named_program(args), config_path },
            ),
        }
    }
}

fn asks_for(args: &Vec<String>, name: &str) -> (r: bool)
    ensures
        r == texts(args@).contains(name@),
{
    let mut i: usize = 0;
    while i < args.len()
        invariant
            i <= args@.len(),
            forall|j: int| 0 <= j < i ==> #[trigger] texts(args@)[j] != name@,
        decreases args@.len() - i,
    {
        assert(texts(args@)[i as int] == args@[i as int]@);
        if same(args[i].as_str(), name) {
            return true;
        }
        i += 1;
    }
    false
}

fn config_of(args: &Vec<String>) -> (r: Result<String, String>)
    ensures
        told(r) == named_config(texts(args@), 0, DEFAULT_CONFIG@),
{
    let mut path = DEFAULT_CONFIG.to_owned();
    let mut i: usize = 0;
    let n: usize = args.len();
    while i < n
        invariant
            i <= n,
            n == args@.len(),
            named_config(texts(args@), i as int, path@) == named_config(
                texts(args@),
                0,
                DEFAULT_CONFIG@,
            ),
        decreases n - i,
    {
        assert(texts(args@)[i as int] == args@[i as int]@);
        if same(args[i].as_str(), "--config") {
            if i + 1 >= n {
                return Err("--config requires a path argument".to_string());
            }
            path = args[i + 1].as_str().to_owned();
            assert(texts(args@)[i + 1] == args@[i + 1]@);
            i += 2;
        } else {
            i += 1;
        }
    }
    Ok(path)
}

/// Reads the arguments of the daemon.
pub fn parse_args(args: &Vec<String>) -> (r: Result<Invocation, String>)
    ensures
        told(r) == invocation(texts(args@)),
{
    if asks_for(args, "--help") || asks_for(args, "-h") {
        return Ok(Invocation::Help);
    }
    let prog_id = match position(args, "--prog-id") {
        Some(i) => {
            let n: usize = args.len();
            if i + 1 < n {
                assert(texts(args@)[i + 1] == args@[i + 1]@);
                read_signed(args[i + 1].as_str())
            } else {
                None
            }
        },
        None => None,
    };
    match config_of(args) {
        Err(e) => Err(e),
        Ok(config_path) => Ok(Invocation::Run { prog_id, config_path }),
    }
}

} // verus!
