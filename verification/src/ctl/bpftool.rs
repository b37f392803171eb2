//! The kernel maps through the `bpftool` program.
use vstd::prelude::*;
use vstd::string::StringExecFns;

use crate::ctl::edits::{Edit, Editor, Edits};
use crate::daemon::maps::{counter_id_from_u32, counter_of};
use crate::daemon::monitoring::{push_signed, signed};
use crate::json::{json_array, json_views, parse_json_array, Json, JsonView};
use crate::maps::CounterId;
use crate::text::{
    after, contains_text, decimal, decimal_text, digits_at_start, from, hex_byte, holds,
    leading_digits, lines, parse_number, push_decimal, read_number, same, split_lines, split_words,
    starts, starts_with, text_after, text_from, texts, told, trim, trimmed, words,
};
use crate::trace::{extends, lemma_push, lemma_same, since};

verus! {

/// Map of the counters.
pub const COUNTERS_MAP: &'static str = "counters";
/// Map of the tracked connections.
pub const CONNTRACK_MAP: &'static str = "conntrack";
/// Map of the token buckets.
pub const RATE_LIMIT_MAP: &'static str = "rate_limit";

/// What a program printed and how it ended.
#[derive(Debug)]
pub struct ToolOutput {
    pub success: bool,
    pub code: Option<i32>,
    pub stdout: String,
    pub stderr: String,
}

/// Something that `bpftool` can be asked for.
#[derive(Debug)]
pub enum Query {
    /// The programs of an interface.
    Net(String),
    /// A program.
    Prog(u32),
    /// A map.
    Table(u32),
    /// The contents of a map.
    Dump(u32),
}

/// What a question says.
#[verifier::ext_equal]
pub enum QueryView {
    Net(Seq<char>),
    Prog(u32),
    Table(u32),
    Dump(u32),
}

impl View for Query {
    type V = QueryView;

    open spec fn view(&self) -> QueryView {
        match self {
            Query::Net(iface) => QueryView::Net(iface@),
            Query::Prog(id) => QueryView::Prog(*id),
            Query::Table(id) => QueryView::Table(*id),
            Query::Dump(id) => QueryView::Dump(*id),
        }
    }
}

impl QueryView {
    /// The arguments of `bpftool`.
    pub open spec fn args(self) -> Seq<Seq<char>> {
        match self {
            QueryView::Net(iface) => seq!["net"@, "show"@, "dev"@, iface],
            QueryView::Prog(id) => seq!["prog"@, "show"@, "id"@, decimal(id as int)],
            QueryView::Table(id) => seq!["map"@, "show"@, "id"@, decimal(id as int)],
            QueryView::Dump(id) => seq!["map"@, "dump"@, "id"@, decimal(id as int)],
        }
    }
}

impl Query {
    /// The arguments of `bpftool`.
    pub fn args(&self) -> (r: Vec<String>)
        ensures
            texts(r@) == self@.args(),
    {
        let (a, b, c) = match self {
            Query::Net(_) => ("net", "show", "dev"),
            Query::Prog(_) => ("prog", "show", "id"),
            Query::Table(_) => ("map", "show", "id"),
            Query::Dump(_) => ("map", "dump", "id"),
        };
        let last = match self {
            Query::Net(iface) => iface.as_str().to_owned(),
            Query::Prog(id) => decimal_text(*id as u64),
            Query::Table(id) => decimal_text(*id as u64),
            Query::Dump(id) => decimal_text(*id as u64),
        };
        let mut args: Vec<String> = Vec::new();
        args.push(a.to_string());
        args.push(b.to_string());
        args.push(c.to_string());
        args.push(last);
        assert(texts(args@) =~= self@.args());
        args
    }
}

/// What the tool asks other programs. Nothing is assumed of what is answered.
pub trait Tools {
    /// Runs `bpftool` with the arguments of a question; an error where it could
    /// not be run.
    fn show(&self, query: Query) -> Result<ToolOutput, String>;

    /// Runs `ip` for the list of interfaces; an error where it could not be run.
    fn links(&self) -> Result<ToolOutput, String>;

    /// The number of an interface, 0 where there is none of the name.
    fn if_nametoindex(&self, name: String) -> u32;
}

/// Why a map operation failed.
#[derive(Debug)]
pub enum MapError {
    /// The program could not be run.
    Io(String),
    /// The program failed.
    Bpftool { code: Option<i32>, stderr: String },
    /// What the program printed could not be understood.
    Json(String),
}

#[verifier::ext_equal]
pub enum ToolErrorView {
    Io(Seq<char>),
    Bpftool { code: Option<i32>, stderr: Seq<char> },
    Json(Seq<char>),
}

impl View for MapError {
    type V = ToolErrorView;

    open spec fn view(&self) -> ToolErrorView {
        match self {
            MapError::Io(s) => ToolErrorView::Io(s@),
            MapError::Bpftool { code, stderr } => ToolErrorView::Bpftool {
                code: *code,
                stderr: stderr@,
            },
            MapError::Json(s) => ToolErrorView::Json(s@),
        }
    }
}

/// An exit code as a text.
pub open spec fn code_text(code: Option<i32>) -> Seq<char> {
    match code {
        Some(n) => "Some("@ + signed(n) + ")"@,
        None => "None"@,
    }
}

impl ToolErrorView {
    pub open spec fn message(self) -> Seq<char> {
        match self {
            ToolErrorView::Io(e) => "bpftool execution error: "@ + e,
            ToolErrorView::Bpftool { code, stderr } => "bpftool exited with error "@ + code_text(
                code,
            ) + ": "@ + stderr,
            ToolErrorView::Json(s) => "bpftool output parse error: "@ + s,
        }
    }

    /// A failure of the program with the name of a map before its text.
    pub open spec fn amended(self, map: Seq<char>) -> ToolErrorView {
        match self {
            ToolErrorView::Bpftool { code, stderr } => ToolErrorView::Bpftool {
                code,
                stderr: "["@ + map + "] "@ + stderr,
            },
            other => other,
        }
    }
}

fn push_code(s: &mut String, code: Option<i32>)
    ensures
        final(s)@ == old(s)@ + code_text(code),
{
    match code {
        Some(n) => {
            s.append("Some(");
            push_signed(s, n);
            s.append(")");
            assert(s@ =~= old(s)@ + code_text(code));
        },
        None => {
            s.append("None");
        },
    }
}

impl MapError {
    /// The error as a text.
    pub fn message(&self) -> (r: String)
        ensures
            r@ == self@.message(),
    {
        match self {
            MapError::Io(e) => {
                let mut m = "bpftool execution error: ".to_string();
                m.append(e.as_str());
                m
            },
            MapError::Bpftool { code, stderr } => {
                let mut m = "bpftool exited with error ".to_string();
                push_code(&mut m, *code);
                m.append(": ");
                m.append(stderr.as_str());
                m
            },
            MapError::Json(s) => {
                let mut m = "bpftool output parse error: ".to_string();
                m.append(s.as_str());
                m
            },
        }
    }
}

/// Puts the name of a map before the text of a failure of the program.
pub fn amend(e: MapError, map: &str) -> (r: MapError)
    ensures
        r@ == e@.amended(map@),
{
    match e {
        MapError::Bpftool { code, stderr } => {
            let mut m = "[".to_string();
            m.append(map);
            m.append("] ");
            m.append(stderr.as_str());
            MapError::Bpftool { code, stderr: m }
        },
        MapError::Io(s) => MapError::Io(s),
        MapError::Json(s) => MapError::Json(s),
    }
}

/// What `r` says, its error by view.
pub open spec fn seen<T>(r: Result<T, MapError>) -> Result<T, ToolErrorView> {
    match r {
        Ok(t) => Ok(t),
        Err(e) => Err(e@),
    }
}

/// A text, or an error.
pub open spec fn text_seen(r: Result<String, MapError>) -> Result<Seq<char>, ToolErrorView> {
    match r {
        Ok(t) => Ok(t@),
        Err(e) => Err(e@),
    }
}

// ---- Running bpftool ----

/// What a run says.
#[verifier::ext_equal]
pub struct RunView {
    pub success: bool,
    pub code: Option<i32>,
    pub stdout: Seq<char>,
    pub stderr: Seq<char>,
}

impl View for ToolOutput {
    type V = RunView;

    open spec fn view(&self) -> RunView {
        RunView {
            success: self.success,
            code: self.code,
            stdout: self.stdout@,
            stderr: self.stderr@,
        }
    }
}

/// `bpftool` was asked.
pub open spec fn tool_run<T: Tools>(
    t: &T,
    query: QueryView,
    r: Result<RunView, Seq<char>>,
) -> bool {
    exists|q: Query, reply: Result<ToolOutput, String>|
        {
            &&& q@ == query
            &&& #[trigger] call_ensures(T::show, (t, q), reply)
            &&& r == told(reply)
        }
}

/// Asks `bpftool`.
pub fn run_tool<T: Tools>(t: &T, query: Query) -> (r: Result<ToolOutput, String>)
    ensures
        tool_run(t, query@, told(r)),
{
    let reply = t.show(query);
    assert(call_ensures(T::show, (t, query), reply));
    reply
}

/// What a run prints, or the error of a run that failed with the text `m`.
pub open spec fn printed(r: Result<RunView, Seq<char>>, m: Seq<char>) -> Result<
    Seq<char>,
    ToolErrorView,
> {
    match r {
        Err(e) => Err(ToolErrorView::Io(e)),
        Ok(o) => if o.success {
            Ok(o.stdout)
        } else {
            Err(ToolErrorView::Bpftool { code: o.code, stderr: m })
        },
    }
}

/// The text of a failed map command: what it printed as an error, then what it
/// printed.
pub open spec fn map_failure(o: RunView) -> Seq<char> {
    if o.stderr.len() == 0 {
        o.stdout
    } else if o.stdout.len() == 0 {
        o.stderr
    } else {
        o.stderr + "\n"@ + o.stdout
    }
}

/// What a map command prints.
pub open spec fn map_output(r: Result<RunView, Seq<char>>) -> Result<Seq<char>, ToolErrorView> {
    printed(
        r,
        match r {
            Ok(o) => map_failure(o),
            Err(e) => e,
        },
    )
}

/// What a command about a program or map prints.
pub open spec fn show_output(r: Result<RunView, Seq<char>>) -> Result<Seq<char>, ToolErrorView> {
    printed(
        r,
        match r {
            Ok(o) => o.stdout + o.stderr,
            Err(e) => e,
        },
    )
}

/// What a map command prints.
pub fn output_of_map(r: Result<ToolOutput, String>) -> (s: Result<String, MapError>)
    ensures
        text_seen(s) == map_output(told(r)),
{
    match r {
        Err(e) => Err(MapError::Io(e)),
        Ok(o) => {
            if o.success {
                return Ok(o.stdout);
            }
            let stderr = if o.stderr.as_str().is_empty() {
                o.stdout
            } else if o.stdout.as_str().is_empty() {
                o.stderr
            } else {
                let mut m = o.stderr;
                m.append("\n");
                m.append(o.stdout.as_str());
                m
            };
            Err(MapError::Bpftool { code: o.code, stderr })
        },
    }
}

/// What a command about a program or map prints.
pub fn output_of_show(r: Result<ToolOutput, String>) -> (s: Result<String, MapError>)
    ensures
        text_seen(s) == show_output(told(r)),
{
    match r {
        Err(e) => Err(MapError::Io(e)),
        Ok(o) => {
            if o.success {
                return Ok(o.stdout);
            }
            let mut m = o.stdout;
            m.append(o.stderr.as_str());
            Err(MapError::Bpftool { code: o.code, stderr: m })
        },
    }
}

/// The arguments of a map command.
pub open spec fn map_query(args: Seq<Seq<char>>) -> Seq<Seq<char>> {
    seq!["map"@] + args
}

/// A map command was run, once and with nothing else.
pub open spec fn map_command(
    args: Seq<Seq<char>>,
    done: Seq<Edit>,
    r: Result<Seq<char>, ToolErrorView>,
) -> bool {
    &&& done.len() == 1
    &&& done[0].args == map_query(args)
    &&& r == map_output(done[0].reply)
}

/// Whether something worked.
pub open spec fn effect_of(o: Result<Seq<char>, ToolErrorView>) -> Result<(), ToolErrorView> {
    match o {
        Ok(_) => Ok(()),
        Err(e) => Err(e),
    }
}

/// A map command was run for its effect, once and with nothing else.
pub open spec fn map_effect(
    args: Seq<Seq<char>>,
    done: Seq<Edit>,
    r: Result<(), ToolErrorView>,
) -> bool {
    &&& done.len() == 1
    &&& done[0].args == map_query(args)
    &&& r == effect_of(map_output(done[0].reply))
}

/// The texts of a list of words.
pub open spec fn word_texts(v: Seq<&'static str>) -> Seq<Seq<char>> {
    Seq::new(v.len(), |i: int| v[i]@)
}

pub fn push_words(out: &mut Vec<String>, words: &Vec<&'static str>)
    ensures
        texts(final(out)@) == texts(old(out)@) + word_texts(words@),
{
    let mut i: usize = 0;
    assert(texts(out@) =~= texts(old(out)@) + word_texts(words@).take(0));
    while i < words.len()
        invariant
            i <= words@.len(),
            texts(out@) == texts(old(out)@) + word_texts(words@).take(i as int),
        decreases words@.len() - i,
    {
        let ghost before = out@;
        out.push(words[i].to_owned());
        assert(texts(out@) =~= texts(before).push(words@[i as int]@));
        assert(word_texts(words@).take(i + 1) =~= word_texts(words@).take(i as int).push(
            words@[i as int]@,
        ));
        i += 1;
    }
    assert(word_texts(words@).take(i as int) =~= word_texts(words@));
}

pub fn push_texts(out: &mut Vec<String>, more: &Vec<String>)
    ensures
        texts(final(out)@) == texts(old(out)@) + texts(more@),
{
    let mut i: usize = 0;
    assert(texts(out@) =~= texts(old(out)@) + texts(more@).take(0));
    while i < more.len()
        invariant
            i <= more@.len(),
            texts(out@) == texts(old(out)@) + texts(more@).take(i as int),
        decreases more@.len() - i,
    {
        let ghost before = out@;
        out.push(more[i].as_str().to_owned());
        assert(texts(out@) =~= texts(before).push(more@[i as int]@));
        assert(texts(more@).take(i + 1) =~= texts(more@).take(i as int).push(more@[i as int]@));
        i += 1;
    }
    assert(texts(more@).take(i as int) =~= texts(more@));
}

/// Runs a map command.
pub fn bpftool<E: Editor>(w: &mut Edits<E>, args: &Vec<String>) -> (r: Result<String, MapError>)
    ensures
        extends(old(w).runs(), final(w).runs()),
        final(w).editor() == old(w).editor(),
        map_command(texts(args@), since(old(w).runs(), final(w).runs()), text_seen(r)),
{
    let mut full: Vec<String> = Vec::new();
    full.push("map".to_string());
    assert(texts(full@) =~= seq!["map"@]);
    push_texts(&mut full, args);
    let ghost words = texts(full@);
    let ghost before = w.runs();
    let o = w.run(full);
    proof {
        lemma_push(before, Edit { args: words, reply: told(o) });
    }
    output_of_map(o)
}

fn bpftool_effect<E: Editor>(w: &mut Edits<E>, args: &Vec<String>) -> (r: Result<(), MapError>)
    ensures
        extends(old(w).runs(), final(w).runs()),
        final(w).editor() == old(w).editor(),
        map_effect(texts(args@), since(old(w).runs(), final(w).runs()), seen(r)),
{
    match bpftool(w, args) {
        Ok(_) => Ok(()),
        Err(e) => Err(e),
    }
}

// ---- The program of an interface ----

/// The number behind a text.
pub open spec fn number_after(s: Seq<char>, p: Seq<char>) -> Option<u32> {
    match after(s, p) {
        Some(rest) => match parse_number(leading_digits(rest), 10, u32::MAX as int) {
            Some(n) => Some(n as u32),
            None => None,
        },
        None => None,
    }
}

/// The number behind a text.
pub fn read_number_after(s: &str, p: &str) -> (r: Option<u32>)
    ensures
        r == number_after(s@, p@),
{
    match text_after(s, p) {
        Some(rest) => match read_number(digits_at_start(rest.as_str()).as_str(), 10, 0xffff_ffff) {
            Some(n) => Some(n as u32),
            None => None,
        },
        None => None,
    }
}

/// The number behind `id ` in what follows `prog`.
pub open spec fn prog_number(s: Seq<char>) -> Option<u32> {
    match from(s, "prog"@) {
        Some(rest) => number_after(rest, "id "@),
        None => None,
    }
}

fn read_prog_number(s: &str) -> (r: Option<u32>)
    ensures
        r == prog_number(s@),
{
    match text_from(s, "prog") {
        Some(rest) => read_number_after(rest.as_str(), "id "),
        None => None,
    }
}

/// A line about XDP that names a program.
pub open spec fn names_prog(line: Seq<char>) -> bool {
    holds(line, "prog"@) && holds(line, "id"@)
}

pub open spec fn xdp_line(line: Seq<char>) -> bool {
    starts(line, "xdp:"@) || starts(line, "xdpdrv:"@) || starts(line, "xdpgeneric:"@)
}

/// The number in the line behind a line `xdp:`.
pub open spec fn next_line_number(next: Seq<char>) -> Option<u32> {
    let generic = if holds(next, "generic id"@) {
        number_after(next, "generic id "@)
    } else {
        None
    };
    if generic is Some {
        generic
    } else if names_prog(next) {
        prog_number(next)
    } else {
        None
    }
}

/// The number that the `i`-th line gives.
pub open spec fn line_number(all: Seq<Seq<char>>, i: int) -> Option<u32> {
    let line = trim(all[i]);
    let own = if xdp_line(line) && names_prog(line) {
        prog_number(line)
    } else {
        None
    };
    if own is Some {
        own
    } else if line == "xdp:"@ && i + 1 < all.len() {
        next_line_number(trim(all[i + 1]))
    } else {
        None
    }
}

/// The number that the first of the first `n` lines gives.
pub open spec fn lines_number(all: Seq<Seq<char>>, n: nat) -> Option<u32>
    decreases n,
{
    if n == 0 {
        None
    } else {
        match lines_number(all, (n - 1) as nat) {
            Some(id) => Some(id),
            None => line_number(all, n - 1),
        }
    }
}

/// The number of the XDP program in what `bpftool net show` prints.
pub open spec fn net_prog_id(text: Seq<char>) -> Option<u32> {
    lines_number(lines(text), lines(text).len())
}

fn read_next_line(next: &str) -> (r: Option<u32>)
    ensures
        r == next_line_number(next@),
{
    if contains_text(next, "generic id") {
        let n = read_number_after(next, "generic id ");
        if n.is_some() {
            return n;
        }
    }
    if contains_text(next, "prog") && contains_text(next, "id") {
        return read_prog_number(next);
    }
    None
}

fn read_line(all: &Vec<String>, i: usize) -> (r: Option<u32>)
    requires
        i < all@.len(),
    ensures
        r == line_number(texts(all@), i as int),
{
    let ghost t = texts(all@);
    assert(t[i as int] == all@[i as int]@);
    let line = trimmed(all[i].as_str());
    let l = line.as_str();
    if (starts_with(l, "xdp:") || starts_with(l, "xdpdrv:") || starts_with(l, "xdpgeneric:"))
        && contains_text(l, "prog") && contains_text(l, "id") {
        let n = read_prog_number(l);
        if n.is_some() {
            return n;
        }
    }
    let count: usize = all.len();
    if same(l, "xdp:") && i + 1 < count {
        assert(t[i + 1] == all@[i + 1]@);
        let next = trimmed(all[i + 1].as_str());
        return read_next_line(next.as_str());
    }
    None
}

proof fn lemma_lines_number(all: Seq<Seq<char>>, n: nat, m: nat)
    requires
        n <= m,
        lines_number(all, n) is Some,
    ensures
        lines_number(all, m) == lines_number(all, n),
    decreases m,
{
    if n < m {
        lemma_lines_number(all, n, (m - 1) as nat);
    }
}

/// The number of the XDP program in what `bpftool net show` prints.
pub fn prog_id_in_net(text: &str) -> (r: Option<u32>)
    ensures
        r == net_prog_id(text@),
{
    let all = split_lines(text);
    let ghost t = texts(all@);
    let mut i: usize = 0;
    while i < all.len()
        invariant
            i <= all@.len(),
            t == texts(all@),
            t == lines(text@),
            lines_number(t, i as nat) is None,
        decreases all@.len() - i,
    {
        let n = read_line(&all, i);
        if n.is_some() {
            proof {
                assert(lines_number(t, (i + 1) as nat) == n);
                lemma_lines_number(t, (i + 1) as nat, t.len());
            }
            return n;
        }
        i += 1;
    }
    None
}

/// `bpftool net show` was run for the interface and what it printed read.
pub open spec fn prog_found<T: Tools>(
    t: &T,
    iface: Seq<char>,
    r: Result<Option<u32>, ToolErrorView>,
) -> bool {
    exists|o: Result<RunView, Seq<char>>|
        #[trigger] tool_run(t, QueryView::Net(iface), o) && r == match o {
            Err(e) => Err::<Option<u32>, ToolErrorView>(ToolErrorView::Io(e)),
            Ok(v) => Ok(net_prog_id(v.stdout)),
        }
}

/// The number of the XDP program of an interface.
pub fn find_xdp_prog_id<T: Tools>(t: &T, iface: &str) -> (r: Result<Option<u32>, MapError>)
    ensures
        prog_found(t, iface@, seen(r)),
{
    let o = run_tool(t, Query::Net(iface.to_owned()));
    assert(tool_run(t, QueryView::Net(iface@), told(o)));
    match o {
        Err(e) => Err(MapError::Io(e)),
        Ok(v) => Ok(prog_id_in_net(v.stdout.as_str())),
    }
}

// ---- The maps of a program ----

/// A comma or ASCII white space.
pub open spec fn separates(c: char) -> bool {
    c == ',' || c == ' ' || c == '\t' || c == '\n' || c == '\x0C' || c == '\r'
}

/// The pieces of a text between separators, and the one that it ends in.
pub open spec fn pieces(s: Seq<char>) -> Seq<Seq<char>>
    decreases s.len(),
{
    if s.len() == 0 {
        seq![Seq::empty()]
    } else {
        let before = pieces(s.drop_last());
        if separates(s.last()) {
            before.push(Seq::empty())
        } else {
            before.drop_last().push(before.last().push(s.last()))
        }
    }
}

/// A text without the colons at its start.
pub open spec fn trim_colons_start(s: Seq<char>) -> Seq<char>
    decreases s.len(),
{
    if s.len() > 0 && s[0] == ':' {
        trim_colons_start(s.skip(1))
    } else {
        s
    }
}

/// A text without the colons at its end.
pub open spec fn trim_colons_end(s: Seq<char>) -> Seq<char>
    decreases s.len(),
{
    if s.len() > 0 && s.last() == ':' {
        trim_colons_end(s.drop_last())
    } else {
        s
    }
}

/// The numbers among the pieces, colons around them left out.
pub open spec fn piece_numbers(p: Seq<Seq<char>>) -> Seq<u32>
    decreases p.len(),
{
    if p.len() == 0 {
        Seq::empty()
    } else {
        let before = piece_numbers(p.drop_last());
        match parse_number(trim_colons_end(trim_colons_start(p.last())), 10, u32::MAX as int) {
            Some(n) => before.push(n as u32),
            None => before,
        }
    }
}

/// The numbers behind `map_ids` in the lines.
pub open spec fn ids_in_lines(l: Seq<Seq<char>>) -> Seq<u32>
    decreases l.len(),
{
    if l.len() == 0 {
        Seq::empty()
    } else {
        let before = ids_in_lines(l.drop_last());
        match after(l.last(), "map_ids"@) {
            Some(rest) => before + piece_numbers(pieces(rest)),
            None => before,
        }
    }
}

fn is_separator(c: char) -> (r: bool)
    ensures
        r == separates(c),
{
    c == ',' || c == ' ' || c == '\t' || c == '\n' || c == '\x0C' || c == '\r'
}

fn split_pieces(s: &str) -> (r: Vec<String>)
    ensures
        texts(r@) == pieces(s@),
{
    let mut done: Vec<String> = Vec::new();
    let mut cur = String::new();
    assert(texts(done@).push(cur@) =~= pieces(s@.take(0)));
    for c in it: s.chars()
        invariant
            texts(done@).push(cur@) == pieces(it.seq().take(it.index() as int)),
            it.seq() == s@,
    {
        let ghost before = pieces(it.seq().take(it.index() as int));
        let ghost done0 = done@;
        let ghost cur0 = cur@;
        assert(before.last() == cur0);
        assert(before.drop_last() =~= texts(done0));
        assert(it.seq().take(it.index() + 1).drop_last() =~= it.seq().take(it.index() as int));
        if is_separator(c) {
            done.push(cur);
            cur = String::new();
            assert(texts(done@) =~= texts(done0).push(cur0));
        } else {
            cur.push(c);
        }
        assert(texts(done@).push(cur@) =~= pieces(it.seq().take(it.index() + 1)));
    }
    assert(s@.take(s@.len() as int) =~= s@);
    let ghost done0 = done@;
    let ghost cur0 = cur@;
    done.push(cur);
    assert(texts(done@) =~= texts(done0).push(cur0));
    done
}

fn without_colons(s: &str) -> (r: String)
    ensures
        r@ == trim_colons_end(trim_colons_start(s@)),
{
    let v = crate::text::chars_of(s);
    let mut a: usize = 0;
    assert(v@.skip(0) =~= v@);
    while a < v.len() && v[a] == ':'
        invariant
            a <= v@.len(),
            trim_colons_start(v@) == trim_colons_start(v@.skip(a as int)),
        decreases v@.len() - a,
    {
        assert(v@.skip(a as int).skip(1) =~= v@.skip(a + 1));
        a += 1;
    }
    let mut b: usize = v.len();
    let ghost t = v@.skip(a as int);
    assert(trim_colons_start(v@) == t);
    assert(t =~= v@.subrange(a as int, b as int));
    while b > a && v[b - 1] == ':'
        invariant
            a <= b <= v@.len(),
            trim_colons_end(t) == trim_colons_end(v@.subrange(a as int, b as int)),
        decreases b,
    {
        assert(v@.subrange(a as int, b as int).drop_last() =~= v@.subrange(a as int, b - 1));
        b -= 1;
    }
    crate::text::sub_text(&v, a, b)
}

fn push_numbers(out: &mut Vec<u32>, p: &Vec<String>)
    ensures
        final(out)@ == old(out)@ + piece_numbers(texts(p@)),
{
    let ghost all = texts(p@);
    let mut i: usize = 0;
    assert(all.take(0) =~= Seq::empty());
    assert(out@ =~= old(out)@ + piece_numbers(all.take(0)));
    while i < p.len()
        invariant
            i <= p@.len(),
            all == texts(p@),
            out@ == old(out)@ + piece_numbers(all.take(i as int)),
        decreases p@.len() - i,
    {
        assert(all.take(i + 1).drop_last() =~= all.take(i as int));
        assert(all.take(i + 1).last() == p@[i as int]@);
        let bare = without_colons(p[i].as_str());
        if let Some(n) = read_number(bare.as_str(), 10, 0xffff_ffff) {
            out.push(n as u32);
        }
        assert(out@ =~= old(out)@ + piece_numbers(all.take(i + 1)));
        i += 1;
    }
    assert(all.take(i as int) =~= all);
}

/// The numbers of the maps in what `bpftool prog show` prints.
pub fn map_ids_in(text: &str) -> (r: Vec<u32>)
    ensures
        r@ == ids_in_lines(lines(text@)),
{
    let all = split_lines(text);
    let ghost t = texts(all@);
    let mut out: Vec<u32> = Vec::new();
    let mut i: usize = 0;
    assert(t.take(0) =~= Seq::empty());
    while i < all.len()
        invariant
            i <= all@.len(),
            t == texts(all@),
            out@ == ids_in_lines(t.take(i as int)),
        decreases all@.len() - i,
    {
        assert(t.take(i + 1).drop_last() =~= t.take(i as int));
        assert(t.take(i + 1).last() == all@[i as int]@);
        if let Some(rest) = text_after(all[i].as_str(), "map_ids") {
            let p = split_pieces(rest.as_str());
            push_numbers(&mut out, &p);
        }
        i += 1;
    }
    assert(t.take(i as int) =~= t);
    out
}

/// `bpftool prog show` was run and the map numbers in what it printed read.
pub open spec fn map_ids_found<T: Tools>(
    t: &T,
    prog_id: u32,
    r: Result<Seq<u32>, ToolErrorView>,
) -> bool {
    exists|o: Result<RunView, Seq<char>>|
        #[trigger] tool_run(t, QueryView::Prog(prog_id), o) && r == match show_output(o) {
            Ok(s) => Ok::<Seq<u32>, ToolErrorView>(ids_in_lines(lines(s))),
            Err(e) => Err(e),
        }
}

pub open spec fn ids_seen(r: Result<Vec<u32>, MapError>) -> Result<Seq<u32>, ToolErrorView> {
    match r {
        Ok(v) => Ok(v@),
        Err(e) => Err(e@),
    }
}

/// The numbers of the maps of a program.
pub fn get_map_ids_for_prog<T: Tools>(t: &T, prog_id: u32) -> (r: Result<Vec<u32>, MapError>)
    ensures
        map_ids_found(t, prog_id, ids_seen(r)),
{
    let o = run_tool(t, Query::Prog(prog_id));
    assert(tool_run(t, QueryView::Prog(prog_id), told(o)));
    match output_of_show(o) {
        Ok(s) => Ok(map_ids_in(s.as_str())),
        Err(e) => Err(e),
    }
}

/// The first of the words, from index `i` on, that is `name`, and what follows
/// it.
pub open spec fn name_from(w: Seq<Seq<char>>, i: int) -> Seq<char>
    decreases w.len() - i,
{
    if i < 0 || i >= w.len() {
        Seq::empty()
    } else if w[i] == "name"@ {
        if i + 1 < w.len() {
            w[i + 1]
        } else {
            Seq::empty()
        }
    } else {
        name_from(w, i + 1)
    }
}

/// The name of a map in what `bpftool map show` prints: behind the number and
/// the type, the word that follows `name`.
pub open spec fn map_name_in(text: Seq<char>) -> Seq<char> {
    name_from(words(text), 2)
}

/// The type of a map in what `bpftool map show` prints: the second word.
pub open spec fn map_type_in(text: Seq<char>) -> Seq<char> {
    if words(text).len() > 1 {
        words(text)[1]
    } else {
        Seq::empty()
    }
}

fn no_text() -> (r: String)
    ensures
        r@ == Seq::<char>::empty(),
{
    String::new()
}

/// The name and type of a map in what `bpftool map show` prints.
pub fn read_map_info(text: &str) -> (r: (String, String))
    ensures
        r.0@ == map_name_in(text@),
        r.1@ == map_type_in(text@),
{
    let w = split_words(text);
    let ghost t = texts(w@);
    let map_type = if w.len() > 1 {
        assert(t[1] == w@[1]@);
        w[1].as_str().to_owned()
    } else {
        no_text()
    };
    let mut i: usize = 2;
    while i < w.len()
        invariant
            2 <= i,
            t == texts(w@),
            t == words(text@),
            name_from(t, 2) == name_from(t, i as int),
            map_type@ == map_type_in(text@),
        decreases w@.len() - i,
    {
        assert(t[i as int] == w@[i as int]@);
        if same(w[i].as_str(), "name") {
            if i + 1 < w.len() {
                assert(t[i + 1] == w@[i + 1]@);
                return (w[i + 1].as_str().to_owned(), map_type);
            }
            return (no_text(), map_type);
        }
        i += 1;
    }
    (no_text(), map_type)
}

/// `bpftool map show` was run and the name and type in what it printed read.
pub open spec fn map_info_found<T: Tools>(
    t: &T,
    map_id: u32,
    r: Result<(Seq<char>, Seq<char>), ToolErrorView>,
) -> bool {
    exists|o: Result<RunView, Seq<char>>|
        #[trigger] tool_run(t, QueryView::Table(map_id), o) && r == match show_output(o) {
            Ok(s) => Ok::<(Seq<char>, Seq<char>), ToolErrorView>((map_name_in(s), map_type_in(s))),
            Err(e) => Err(e),
        }
}

pub open spec fn info_seen(r: Result<(String, String), MapError>) -> Result<
    (Seq<char>, Seq<char>),
    ToolErrorView,
> {
    match r {
        Ok((a, b)) => Ok((a@, b@)),
        Err(e) => Err(e@),
    }
}

/// The name and type of a map.
pub fn get_map_info<T: Tools>(t: &T, map_id: u32) -> (r: Result<(String, String), MapError>)
    ensures
        map_info_found(t, map_id, info_seen(r)),
{
    let o = run_tool(t, Query::Table(map_id));
    assert(tool_run(t, QueryView::Table(map_id), told(o)));
    match output_of_show(o) {
        Ok(s) => Ok(read_map_info(s.as_str())),
        Err(e) => Err(e),
    }
}

// ---- The map of a name ----

/// The map was asked for its name: it is `name`, or not.
pub open spec fn map_named<T: Tools>(t: &T, id: u32, name: Seq<char>, is: bool) -> bool {
    exists|info: Result<(Seq<char>, Seq<char>), ToolErrorView>|
        #[trigger] map_info_found(t, id, info) && info is Ok && is == (info->Ok_0.0 == name)
}

pub open spec fn no_map(name: Seq<char>, prog_id: u32) -> ToolErrorView {
    ToolErrorView::Bpftool {
        code: None,
        stderr: "Map '"@ + name + "' not found in program "@ + decimal(prog_id as int),
    }
}

pub open spec fn no_prog(iface: Seq<char>) -> ToolErrorView {
    ToolErrorView::Bpftool { code: None, stderr: "No XDP program attached to "@ + iface }
}

/// The maps were asked in order until one had the name or asking failed.
pub open spec fn map_chosen<T: Tools>(
    t: &T,
    ids: Seq<u32>,
    name: Seq<char>,
    prog_id: u32,
    r: Result<u32, ToolErrorView>,
) -> bool {
    ||| r matches Ok(id) && exists|n: int|
        {
            &&& 0 <= n < ids.len()
            &&& #[trigger] ids[n] == id
            &&& map_named(t, id, name, true)
            &&& forall|i: int| 0 <= i < n ==> map_named(t, #[trigger] ids[i], name, false)
        }
    ||| r matches Err(e) && exists|n: int|
        {
            &&& 0 <= n < ids.len()
            &&& map_info_found(t, #[trigger] ids[n], Err(e))
            &&& forall|i: int| 0 <= i < n ==> map_named(t, #[trigger] ids[i], name, false)
        }
    ||| r == Err::<u32, ToolErrorView>(no_map(name, prog_id)) && forall|i: int|
        0 <= i < ids.len() ==> map_named(t, #[trigger] ids[i], name, false)
}

fn choose_map<T: Tools>(t: &T, ids: &Vec<u32>, name: &str, prog_id: u32) -> (r: Result<
    u32,
    MapError,
>)
    ensures
        map_chosen(t, ids@, name@, prog_id, seen(r)),
{
    let mut i: usize = 0;
    while i < ids.len()
        invariant
            i <= ids@.len(),
            forall|j: int| 0 <= j < i ==> map_named(t, #[trigger] ids@[j], name@, false),
        decreases ids@.len() - i,
    {
        let id: u32 = ids[i];
        let info = get_map_info(t, id);
        assert(map_info_found(t, ids@[i as int], info_seen(info)));
        match info {
            Err(e) => {
                return Err(e);
            },
            Ok((n, _)) => {
                let is = same(n.as_str(), name);
                assert(map_named(t, ids@[i as int], name@, is));
                if is {
                    return Ok(id);
                }
            },
        }
        i += 1;
    }
    let mut m = "Map '".to_string();
    m.append(name);
    m.append("' not found in program ");
    push_decimal(&mut m, prog_id as u64);
    Err(MapError::Bpftool { code: None, stderr: m })
}

/// The map of the program was looked for.
pub open spec fn map_of_prog<T: Tools>(
    t: &T,
    prog_id: u32,
    name: Seq<char>,
    r: Result<u32, ToolErrorView>,
) -> bool {
    exists|ids: Result<Seq<u32>, ToolErrorView>|
        {
            &&& #[trigger] map_ids_found(t, prog_id, ids)
            &&& match ids {
                Err(e) => r == Err::<u32, ToolErrorView>(e),
                Ok(v) => map_chosen(t, v, name, prog_id, r),
            }
        }
}

/// The program of the interface was found, and in it the map of a name.
pub open spec fn map_found<T: Tools>(
    t: &T,
    iface: Seq<char>,
    name: Seq<char>,
    r: Result<u32, ToolErrorView>,
) -> bool {
    exists|prog: Result<Option<u32>, ToolErrorView>|
        {
            &&& #[trigger] prog_found(t, iface, prog)
            &&& match prog {
                Err(e) => r == Err::<u32, ToolErrorView>(e),
                Ok(None) => r == Err::<u32, ToolErrorView>(no_prog(iface)),
                Ok(Some(id)) => map_of_prog(t, id, name, r),
            }
        }
}

/// The number of a map of the program of an interface.
pub fn find_map_id_by_prog<T: Tools>(t: &T, iface: &str, map_name: &str) -> (r: Result<
    u32,
    MapError,
>)
    ensures
        map_found(t, iface@, map_name@, seen(r)),
{
    let prog = find_xdp_prog_id(t, iface);
    assert(prog_found(t, iface@, seen(prog)));
    let prog_id = match prog {
        Err(e) => {
            return Err(e);
        },
        Ok(None) => {
            let mut m = "No XDP program attached to ".to_string();
            m.append(iface);
            return Err(MapError::Bpftool { code: None, stderr: m });
        },
        Ok(Some(id)) => id,
    };
    let ids = get_map_ids_for_prog(t, prog_id);
    assert(map_ids_found(t, prog_id, ids_seen(ids)));
    match ids {
        Err(e) => {
            assert(map_of_prog(t, prog_id, map_name@, Err(e@)));
            Err(e)
        },
        Ok(v) => {
            let r = choose_map(t, &v, map_name, prog_id);
            assert(map_of_prog(t, prog_id, map_name@, seen(r)));
            r
        },
    }
}

// ---- Map commands ----

/// Bytes as words of two hexadecimal digits.
pub open spec fn hex_words(b: Seq<u8>) -> Seq<Seq<char>> {
    Seq::new(b.len(), |i: int| hex_byte(b[i]))
}

/// Bytes as words of two hexadecimal digits.
pub fn to_hex_bytes(bytes: &Vec<u8>) -> (r: Vec<String>)
    ensures
        texts(r@) == hex_words(bytes@),
{
    let mut out: Vec<String> = Vec::new();
    let mut i: usize = 0;
    assert(texts(out@) =~= hex_words(bytes@).take(0));
    while i < bytes.len()
        invariant
            i <= bytes@.len(),
            texts(out@) == hex_words(bytes@).take(i as int),
        decreases bytes@.len() - i,
    {
        let one: Vec<u8> = vec![bytes[i]];
        let h = crate::text::key_to_hex(one.as_slice());
        assert(h@ =~= hex_byte(bytes@[i as int]));
        let ghost before = out@;
        out.push(h);
        assert(texts(out@) =~= texts(before).push(h@));
        assert(hex_words(bytes@).take(i + 1) =~= hex_words(bytes@).take(i as int).push(h@));
        i += 1;
    }
    assert(hex_words(bytes@).take(i as int) =~= hex_words(bytes@));
    out
}

pub open spec fn update_args(map_id: u32, key: Seq<u8>, value: Seq<u8>) -> Seq<Seq<char>> {
    seq!["update"@, "id"@, decimal(map_id as int), "key"@, "hex"@] + hex_words(key) + seq![
        "value"@,
        "hex"@,
    ] + hex_words(value)
}

pub open spec fn delete_args(map_id: u32, key: Seq<u8>) -> Seq<Seq<char>> {
    seq!["delete"@, "id"@, decimal(map_id as int), "key"@, "hex"@] + hex_words(key)
}

/// The map was dumped.
pub open spec fn map_read<T: Tools>(
    t: &T,
    map_id: u32,
    r: Result<Seq<char>, ToolErrorView>,
) -> bool {
    exists|o: Result<RunView, Seq<char>>|
        #[trigger] tool_run(t, QueryView::Dump(map_id), o) && r == map_output(o)
}

/// The contents of a map as `bpftool` prints them.
pub fn bpftool_dump_id<T: Tools>(t: &T, map_id: u32) -> (r: Result<String, MapError>)
    ensures
        map_read(t, map_id, text_seen(r)),
{
    let o = run_tool(t, Query::Dump(map_id));
    assert(tool_run(t, QueryView::Dump(map_id), told(o)));
    output_of_map(o)
}

/// The words of a command on a map: the subcommand, the number of the map, and
/// the rest.
pub open spec fn on_map(map_id: u32, args: Seq<Seq<char>>) -> Seq<Seq<char>> {
    let id = seq!["id"@, decimal(map_id as int)];
    if args.len() == 0 {
        id
    } else {
        seq![args[0]] + id + args.skip(1)
    }
}

/// Runs a command on a map.
pub fn bpftool_run_id<E: Editor>(w: &mut Edits<E>, map_id: u32, args: &Vec<String>) -> (r: Result<
    (),
    MapError,
>)
    ensures
        extends(old(w).runs(), final(w).runs()),
        final(w).editor() == old(w).editor(),
        map_effect(
            on_map(map_id, texts(args@)),
            since(old(w).runs(), final(w).runs()),
            seen(r),
        ),
{
    let mut full: Vec<String> = Vec::new();
    let mut rest: Vec<String> = Vec::new();
    if args.len() > 0 {
        full.push(args[0].as_str().to_owned());
    }
    full.push("id".to_string());
    full.push(decimal_text(map_id as u64));
    let ghost head = texts(full@);
    let mut i: usize = 1;
    assert(texts(rest@) =~= Seq::empty());
    while i < args.len()
        invariant
            1 <= i,
            args@.len() == 0 || i <= args@.len(),
            texts(rest@) == if args@.len() == 0 {
                Seq::empty()
            } else {
                texts(args@).subrange(1, i as int)
            },
        decreases args@.len() - i,
    {
        let ghost before = rest@;
        rest.push(args[i].as_str().to_owned());
        assert(texts(rest@) =~= texts(before).push(args@[i as int]@));
        assert(texts(args@).subrange(1, i + 1) =~= texts(args@).subrange(1, i as int).push(
            args@[i as int]@,
        ));
        i += 1;
    }
    push_texts(&mut full, &rest);
    assert(texts(full@) =~= on_map(map_id, texts(args@))) by {
        if args@.len() > 0 {
            assert(texts(args@)[0] == args@[0]@);
            assert(texts(args@).subrange(1, args@.len() as int) =~= texts(args@).skip(1));
        }
    }
    bpftool_effect(w, &full)
}

fn key_args(verb: &str, map_id: u32, key: &Vec<u8>) -> (r: Vec<String>)
    ensures
        texts(r@) == seq![verb@, "id"@, decimal(map_id as int), "key"@, "hex"@] + hex_words(key@),
{
    let mut args: Vec<String> = Vec::new();
    args.push(verb.to_owned());
    args.push("id".to_string());
    args.push(decimal_text(map_id as u64));
    args.push("key".to_string());
    args.push("hex".to_string());
    assert(texts(args@) =~= seq![verb@, "id"@, decimal(map_id as int), "key"@, "hex"@]);
    let words = to_hex_bytes(key);
    push_texts(&mut args, &words);
    args
}

/// Sets the value of a key.
pub fn map_update_id<E: Editor>(
    w: &mut Edits<E>,
    map_id: u32,
    key: &Vec<u8>,
    value: &Vec<u8>,
) -> (r: Result<(), MapError>)
    ensures
        extends(old(w).runs(), final(w).runs()),
        final(w).editor() == old(w).editor(),
        map_effect(
            update_args(map_id, key@, value@),
            since(old(w).runs(), final(w).runs()),
            seen(r),
        ),
{
    let mut args = key_args("update", map_id, key);
    let words: Vec<&'static str> = vec!["value", "hex"];
    assert(word_texts(words@) =~= seq!["value"@, "hex"@]);
    push_words(&mut args, &words);
    let v = to_hex_bytes(value);
    push_texts(&mut args, &v);
    assert(texts(args@) =~= update_args(map_id, key@, value@));
    bpftool_effect(w, &args)
}

/// Deletes a key.
pub fn map_delete_id<E: Editor>(w: &mut Edits<E>, map_id: u32, key: &Vec<u8>) -> (r: Result<
    (),
    MapError,
>)
    ensures
        extends(old(w).runs(), final(w).runs()),
        final(w).editor() == old(w).editor(),
        map_effect(delete_args(map_id, key@), since(old(w).runs(), final(w).runs()), seen(r)),
{
    let args = key_args("delete", map_id, key);
    bpftool_effect(w, &args)
}

/// The map was found and dumped.
pub open spec fn dumped<T: Tools>(
    t: &T,
    iface: Seq<char>,
    name: Seq<char>,
    r: Result<Seq<char>, ToolErrorView>,
) -> bool {
    exists|id: Result<u32, ToolErrorView>|
        {
            &&& #[trigger] map_found(t, iface, name, id)
            &&& match id {
                Err(e) => r == Err::<Seq<char>, ToolErrorView>(e),
                Ok(n) => map_read(t, n, r),
            }
        }
}

/// The contents of the map of a name.
pub fn bpftool_dump<T: Tools>(t: &T, iface: &str, map_name: &str) -> (r: Result<String, MapError>)
    ensures
        dumped(t, iface@, map_name@, text_seen(r)),
{
    let id = find_map_id_by_prog(t, iface, map_name);
    assert(map_found(t, iface@, map_name@, seen(id)));
    match id {
        Err(e) => Err(e),
        Ok(n) => bpftool_dump_id(t, n),
    }
}

/// The map was found and a command run on it once; nothing is run where it was not found.
pub open spec fn run_on<T: Tools>(
    t: &T,
    iface: Seq<char>,
    name: Seq<char>,
    args: Seq<Seq<char>>,
    done: Seq<Edit>,
    r: Result<(), ToolErrorView>,
) -> bool {
    exists|id: Result<u32, ToolErrorView>|
        {
            &&& #[trigger] map_found(t, iface, name, id)
            &&& match id {
                Err(e) => r == Err::<(), ToolErrorView>(e) && done.len() == 0,
                Ok(n) => map_effect(on_map(n, args), done, r),
            }
        }
}

/// Runs a command on the map of a name.
pub fn bpftool_run<T: Tools, E: Editor>(
    t: &T,
    w: &mut Edits<E>,
    iface: &str,
    map_name: &str,
    args: &Vec<String>,
) -> (r: Result<(), MapError>)
    ensures
        extends(old(w).runs(), final(w).runs()),
        final(w).editor() == old(w).editor(),
        run_on(
            t,
            iface@,
            map_name@,
            texts(args@),
            since(old(w).runs(), final(w).runs()),
            seen(r),
        ),
{
    proof {
        lemma_same(w.runs());
    }
    let id = find_map_id_by_prog(t, iface, map_name);
    assert(map_found(t, iface@, map_name@, seen(id)));
    match id {
        Err(e) => Err(e),
        Ok(n) => bpftool_run_id(w, n, args),
    }
}

/// The map was found and the value of a key set once; nothing is run where it was not found.
pub open spec fn updated<T: Tools>(
    t: &T,
    iface: Seq<char>,
    name: Seq<char>,
    key: Seq<u8>,
    value: Seq<u8>,
    done: Seq<Edit>,
    r: Result<(), ToolErrorView>,
) -> bool {
    exists|id: Result<u32, ToolErrorView>|
        {
            &&& #[trigger] map_found(t, iface, name, id)
            &&& match id {
                Err(e) => r == Err::<(), ToolErrorView>(e) && done.len() == 0,
                Ok(n) => map_effect(update_args(n, key, value), done, r),
            }
        }
}

/// Sets the value of a key of the map of a name.
pub fn map_update<T: Tools, E: Editor>(
    t: &T,
    w: &mut Edits<E>,
    iface: &str,
    map_name: &str,
    key: &Vec<u8>,
    value: &Vec<u8>,
) -> (r: Result<(), MapError>)
    ensures
        extends(old(w).runs(), final(w).runs()),
        final(w).editor() == old(w).editor(),
        updated(
            t,
            iface@,
            map_name@,
            key@,
            value@,
            since(old(w).runs(), final(w).runs()),
            seen(r),
        ),
{
    proof {
        lemma_same(w.runs());
    }
    let id = find_map_id_by_prog(t, iface, map_name);
    assert(map_found(t, iface@, map_name@, seen(id)));
    match id {
        Err(e) => Err(e),
        Ok(n) => map_update_id(w, n, key, value),
    }
}

/// The map was found and a key deleted once; nothing is run where it was not found.
pub open spec fn deleted<T: Tools>(
    t: &T,
    iface: Seq<char>,
    name: Seq<char>,
    key: Seq<u8>,
    done: Seq<Edit>,
    r: Result<(), ToolErrorView>,
) -> bool {
    exists|id: Result<u32, ToolErrorView>|
        {
            &&& #[trigger] map_found(t, iface, name, id)
            &&& match id {
                Err(e) => r == Err::<(), ToolErrorView>(e) && done.len() == 0,
                Ok(n) => map_effect(delete_args(n, key), done, r),
            }
        }
}

/// Deletes a key of the map of a name.
pub fn map_delete<T: Tools, E: Editor>(
    t: &T,
    w: &mut Edits<E>,
    iface: &str,
    map_name: &str,
    key: &Vec<u8>,
) -> (r: Result<(), MapError>)
    ensures
        extends(old(w).runs(), final(w).runs()),
        final(w).editor() == old(w).editor(),
        deleted(
            t,
            iface@,
            map_name@,
            key@,
            since(old(w).runs(), final(w).runs()),
            seen(r),
        ),
{
    proof {
        lemma_same(w.runs());
    }
    let id = find_map_id_by_prog(t, iface, map_name);
    assert(map_found(t, iface@, map_name@, seen(id)));
    match id {
        Err(e) => Err(e),
        Ok(n) => map_delete_id(w, n, key),
    }
}

// ---- Reading dumps ----

/// The entries in a dump, or what is wrong with it.
pub open spec fn dump_entries(
    out: Seq<char>,
    parsed: Result<Seq<JsonView>, Seq<char>>,
) -> Result<Seq<JsonView>, ToolErrorView> {
    match parsed {
        Ok(v) => Ok(v),
        Err(e) => Err(ToolErrorView::Json(e + ": "@ + out)),
    }
}

pub open spec fn entries_seen(r: Result<Vec<Json>, MapError>) -> Result<
    Seq<JsonView>,
    ToolErrorView,
> {
    match r {
        Ok(v) => Ok(json_views(v@)),
        Err(e) => Err(e@),
    }
}

/// Reads a dump.
pub fn read_dump(out: &str) -> (r: Result<Vec<Json>, MapError>)
    ensures
        entries_seen(r) == dump_entries(out@, json_array(out@)),
{
    match parse_json_array(out) {
        Ok(v) => Ok(v),
        Err(e) => {
            let mut m = e;
            m.append(": ");
            m.append(out);
            Err(MapError::Json(m))
        },
    }
}

/// The map was dumped and the dump read.
pub open spec fn dump_read<T: Tools>(
    t: &T,
    iface: Seq<char>,
    name: Seq<char>,
    r: Result<Seq<JsonView>, ToolErrorView>,
) -> bool {
    exists|out: Result<Seq<char>, ToolErrorView>|
        #[trigger] dumped(t, iface, name, out) && r == match out {
            Err(e) => Err::<Seq<JsonView>, ToolErrorView>(e),
            Ok(s) => dump_entries(s, json_array(s)),
        }
}

/// Dumps the map of a name and reads the dump.
pub fn dump_map<T: Tools>(t: &T, iface: &str, map_name: &str) -> (r: Result<Vec<Json>, MapError>)
    ensures
        dump_read(t, iface@, map_name@, entries_seen(r)),
{
    let out = bpftool_dump(t, iface, map_name);
    assert(dumped(t, iface@, map_name@, text_seen(out)));
    match out {
        Err(e) => Err(e),
        Ok(s) => read_dump(s.as_str()),
    }
}

/// The lowest 32 bits of a number.
pub open spec fn low32(n: u64) -> u32 {
    (n % 0x1_0000_0000) as u32
}

/// The counters in the entries; one of an unknown number is left out.
pub open spec fn counter_rows(v: Seq<JsonView>) -> Seq<(CounterId, u64)>
    decreases v.len(),
{
    if v.len() == 0 {
        Seq::empty()
    } else {
        let before = counter_rows(v.drop_last());
        let e = v.last();
        match counter_of(low32(e.at("key"@).at("index"@).number())) {
            Some(c) => before.push((c, e.at("value"@).at("value"@).number())),
            None => before,
        }
    }
}

fn nested_number(e: &Json, a: &str, b: &str) -> (r: u64)
    ensures
        r == e@.at(a@).at(b@).number(),
{
    match e.get(a) {
        Some(v) => v.number_at(b),
        None => 0,
    }
}

/// The counters in the entries.
pub fn read_counters(v: &Vec<Json>) -> (r: Vec<(CounterId, u64)>)
    ensures
        r@ == counter_rows(json_views(v@)),
{
    let mut rows: Vec<(CounterId, u64)> = Vec::new();
    let ghost all = json_views(v@);
    let mut i: usize = 0;
    assert(all.take(0) =~= Seq::empty());
    while i < v.len()
        invariant
            i <= v@.len(),
            all == json_views(v@),
            rows@ == counter_rows(all.take(i as int)),
        decreases v@.len() - i,
    {
        assert(all.take(i + 1).drop_last() =~= all.take(i as int));
        assert(all.take(i + 1).last() == v@[i as int]@);
        let idx: u64 = nested_number(&v[i], "key", "index");
        let val: u64 = nested_number(&v[i], "value", "value");
        if let Some(c) = counter_id_from_u32((idx % 0x1_0000_0000) as u32) {
            rows.push((c, val));
        }
        i += 1;
    }
    assert(all.take(i as int) =~= all);
    rows
}

pub open spec fn rows_seen(r: Result<Vec<(CounterId, u64)>, MapError>) -> Result<
    Seq<(CounterId, u64)>,
    ToolErrorView,
> {
    match r {
        Ok(v) => Ok(v@),
        Err(e) => Err(e@),
    }
}

/// The counters of the program of an interface.
pub fn counters<T: Tools>(t: &T, iface: &str) -> (r: Result<Vec<(CounterId, u64)>, MapError>)
    ensures
        exists|v: Result<Seq<JsonView>, ToolErrorView>|
            #[trigger] dump_read(t, iface@, COUNTERS_MAP@, v) && rows_seen(r) == match v {
                Ok(e) => Ok::<Seq<(CounterId, u64)>, ToolErrorView>(counter_rows(e)),
                Err(e) => Err(e),
            },
{
    let v = dump_map(t, iface, COUNTERS_MAP);
    assert(dump_read(t, iface@, COUNTERS_MAP@, entries_seen(v)));
    match v {
        Ok(e) => Ok(read_counters(&e)),
        Err(e) => Err(e),
    }
}

/// The entries of the map were counted.
pub open spec fn entries_counted<T: Tools>(
    t: &T,
    iface: Seq<char>,
    name: Seq<char>,
    r: Result<usize, ToolErrorView>,
) -> bool {
    exists|v: Result<Seq<JsonView>, ToolErrorView>|
        #[trigger] dump_read(t, iface, name, v) && r == match v {
            Ok(e) => Ok::<usize, ToolErrorView>(e.len() as usize),
            Err(e) => Err(e),
        }
}

fn count_entries<T: Tools>(t: &T, iface: &str, name: &str) -> (r: Result<usize, MapError>)
    ensures
        entries_counted(t, iface@, name@, seen(r)),
{
    let v = dump_map(t, iface, name);
    assert(dump_read(t, iface@, name@, entries_seen(v)));
    match v {
        Ok(e) => Ok(e.len()),
        Err(e) => Err(e),
    }
}

/// The number of tracked connections.
pub fn conntrack_count<T: Tools>(t: &T, iface: &str) -> (r: Result<usize, MapError>)
    ensures
        entries_counted(t, iface@, CONNTRACK_MAP@, seen(r)),
{
    count_entries(t, iface, CONNTRACK_MAP)
}

/// The number of token buckets.
pub fn rate_limit_count<T: Tools>(t: &T, iface: &str) -> (r: Result<usize, MapError>)
    ensures
        entries_counted(t, iface@, RATE_LIMIT_MAP@, seen(r)),
{
    count_entries(t, iface, RATE_LIMIT_MAP)
}

/// The first `n` bytes of an array of numbers; what is missing is 0.
pub open spec fn array_bytes(v: JsonView, n: nat) -> Seq<u8> {
    Seq::new(
        n,
        |i: int|
            if i < v.items().len() {
                (v.items()[i].number() % 256) as u8
            } else {
                0u8
            },
    )
}

/// An address as an array of bytes.
pub fn addr_from_json(v: &Json) -> (r: [u8; 16])
    ensures
        r@ == array_bytes(v@, 16),
{
    let mut addr = [0u8; 16];
    if let Json::Array(a) = v {
        let ghost items = v@.items();
        let mut i: usize = 0;
        while i < a.len() && i < 16
            invariant
                i <= a@.len(),
                i <= 16,
                items == v@.items(),
                items.len() == a@.len(),
                forall|j: int| 0 <= j < a@.len() ==> #[trigger] items[j] == a@[j]@,
                forall|j: int| 0 <= j < i ==> #[trigger] addr@[j] == array_bytes(v@, 16)[j],
                forall|j: int| i <= j < 16 ==> #[trigger] addr@[j] == 0,
            decreases a@.len() - i,
        {
            assert(items[i as int] == a@[i as int]@);
            addr[i] = (a[i].as_number() % 256) as u8;
            i += 1;
        }
        assert(addr@ =~= array_bytes(v@, 16));
    }
    assert(addr@ =~= array_bytes(v@, 16));
    addr
}

} // verus!
