//! Texts as sequences of characters: splitting, joining, numbers and columns.
use vstd::prelude::*;
use vstd::string::StringExecFns;

verus! {

/// `String::push` of std appends one character.
pub assume_specification[ String::push ](s: &mut String, c: char)
    ensures
        final(s)@ == old(s)@.push(c),
;

/// The texts of a list.
pub open spec fn texts(v: Seq<String>) -> Seq<Seq<char>> {
    Seq::new(v.len(), |i: int| v[i]@)
}

/// What a fallible function returns, with the value and the message by their
/// views.
pub open spec fn told<T: View>(r: Result<T, String>) -> Result<T::V, Seq<char>> {
    match r {
        Ok(t) => Ok(t@),
        Err(m) => Err(m@),
    }
}

/// The text of an optional string.
pub open spec fn opt_text(s: Option<String>) -> Option<Seq<char>> {
    match s {
        Some(t) => Some(t@),
        None => None,
    }
}

/// The characters of a text.
pub fn chars_of(s: &str) -> (r: Vec<char>)
    ensures
        r@ == s@,
{
    let mut out: Vec<char> = Vec::new();
    for c in it: s.chars()
        invariant
            out@ == it.seq().take(it.index() as int),
            it.seq() == s@,
    {
        out.push(c);
    }
    out
}

/// The text of some characters.
pub fn string_of(v: &[char]) -> (r: String)
    ensures
        r@ == v@,
{
    let mut s = String::new();
    let n: usize = v.len();
    let mut i: usize = 0;
    while i < n
        invariant
            i <= n,
            n == v@.len(),
            s@ == v@.take(i as int),
        decreases n - i,
    {
        s.push(v[i]);
        i += 1;
        assert(v@.take(i as int) =~= v@.take(i - 1).push(v@[i - 1]));
    }
    assert(v@.take(n as int) =~= v@);
    s
}

/// The characters from `a` to `b` of a text.
pub fn sub_text(v: &Vec<char>, a: usize, b: usize) -> (r: String)
    requires
        a <= b <= v@.len(),
    ensures
        r@ == v@.subrange(a as int, b as int),
{
    string_of(vstd::slice::slice_subrange(v.as_slice(), a, b))
}

/// Whether two texts are the same.
pub fn same(a: &str, b: &str) -> (r: bool)
    ensures
        r == (a@ == b@),
{
    a.to_owned() == b.to_owned()
}

// ---- Case ----

/// A character with ASCII capitals made small.
pub open spec fn lower(c: char) -> char {
    if 'A' <= c && c <= 'Z' {
        (c as u32 + 32) as char
    } else {
        c
    }
}

/// A text with ASCII capitals made small.
pub open spec fn lower_text(s: Seq<char>) -> Seq<char> {
    Seq::new(s.len(), |i: int| lower(s[i]))
}

fn lower_char(c: char) -> (r: char)
    ensures
        r == lower(c),
{
    if 'A' <= c && c <= 'Z' {
        (c as u8 + 32) as char
    } else {
        c
    }
}

/// A text with ASCII capitals made small.
pub fn to_lower(s: &str) -> (r: String)
    ensures
        r@ == lower_text(s@),
{
    let mut out = String::new();
    for c in it: s.chars()
        invariant
            out@ == lower_text(it.seq().take(it.index() as int)),
            it.seq() == s@,
    {
        out.push(lower_char(c));
        assert(lower_text(it.seq().take(it.index() + 1)) =~= lower_text(
            it.seq().take(it.index() as int),
        ).push(lower(c)));
    }
    assert(s@.take(s@.len() as int) =~= s@);
    out
}

/// What `str::to_lowercase` of std makes of a text.
pub uninterp spec fn lowercase_text(s: Seq<char>) -> Seq<char>;

/// `str::to_lowercase` of std: the text with every character replaced by its
/// lowercase form. What that is for a text beyond ASCII is left to the Unicode
/// tables of std; an ASCII text has its capitals made small.
#[verifier::external_body]
pub(crate) fn to_lowercase(s: &str) -> (r: String)
    ensures
        r@ == lowercase_text(s@),
        (forall|i: int| 0 <= i < s@.len() ==> (#[trigger] s@[i] as u32) < 128) ==> r@ == lower_text(
            s@,
        ),
{
    s.to_lowercase()
}

// ---- Searching ----

/// The index of the first `c` of `s`.
pub open spec fn find(s: Seq<char>, c: char) -> Option<int>
    decreases s.len(),
{
    if s.len() == 0 {
        None
    } else {
        match find(s.drop_last(), c) {
            Some(i) => Some(i),
            None => if s.last() == c {
                Some(s.len() - 1)
            } else {
                None
            },
        }
    }
}

/// The index of the last `c` of `s`.
pub open spec fn rfind(s: Seq<char>, c: char) -> Option<int>
    decreases s.len(),
{
    if s.len() == 0 {
        None
    } else if s.last() == c {
        Some(s.len() - 1)
    } else {
        rfind(s.drop_last(), c)
    }
}

/// How often `c` occurs in `s`.
pub open spec fn occurrences(s: Seq<char>, c: char) -> int
    decreases s.len(),
{
    if s.len() == 0 {
        0
    } else {
        occurrences(s.drop_last(), c) + if s.last() == c {
            1int
        } else {
            0
        }
    }
}

/// `find` gives an index of `c` before which there is none.
pub proof fn lemma_find(s: Seq<char>, c: char)
    ensures
        match find(s, c) {
            Some(i) => 0 <= i < s.len() && s[i] == c && forall|j: int| 0 <= j < i ==> s[j] != c,
            None => forall|j: int| 0 <= j < s.len() ==> s[j] != c,
        },
    decreases s.len(),
{
    if s.len() > 0 {
        lemma_find(s.drop_last(), c);
        assert forall|j: int| 0 <= j < s.len() - 1 implies s[j] == s.drop_last()[j] by {}
    }
}

/// `rfind` gives an index of `c` behind which there is none.
pub proof fn lemma_rfind(s: Seq<char>, c: char)
    ensures
        match rfind(s, c) {
            Some(i) => 0 <= i < s.len() && s[i] == c && forall|j: int|
                i < j < s.len() ==> s[j] != c,
            None => forall|j: int| 0 <= j < s.len() ==> s[j] != c,
        },
    decreases s.len(),
{
    if s.len() > 0 && s.last() != c {
        lemma_rfind(s.drop_last(), c);
        assert forall|j: int| 0 <= j < s.len() - 1 implies s[j] == s.drop_last()[j] by {}
    }
}

/// The index of the first `c`, where there is one.
pub fn find_char(v: &Vec<char>, c: char) -> (r: Option<usize>)
    ensures
        match (r, find(v@, c)) {
            (Some(i), Some(j)) => i == j && i < v@.len(),
            (None, None) => true,
            _ => false,
        },
{
    let mut i: usize = 0;
    while i < v.len()
        invariant
            i <= v@.len(),
            find(v@.take(i as int), c) is None,
        decreases v@.len() - i,
    {
        assert(v@.take(i + 1).drop_last() =~= v@.take(i as int));
        if v[i] == c {
            proof {
                lemma_find_prefix(v@, c, i + 1);
            }
            return Some(i);
        }
        i += 1;
    }
    assert(v@.take(i as int) =~= v@);
    None
}

proof fn lemma_find_prefix(s: Seq<char>, c: char, n: int)
    requires
        0 <= n <= s.len(),
        find(s.take(n), c) is Some,
    ensures
        find(s, c) == find(s.take(n), c),
    decreases s.len() - n,
{
    if n == s.len() {
        assert(s.take(n) =~= s);
    } else {
        assert(s.take(n + 1).drop_last() =~= s.take(n));
        lemma_find_prefix(s, c, n + 1);
    }
}

/// The index of the last `c`, where there is one.
pub fn rfind_char(v: &Vec<char>, c: char) -> (r: Option<usize>)
    ensures
        match (r, rfind(v@, c)) {
            (Some(i), Some(j)) => i == j && i < v@.len(),
            (None, None) => true,
            _ => false,
        },
{
    let mut i: usize = v.len();
    assert(v@.take(i as int) =~= v@);
    while i > 0
        invariant
            i <= v@.len(),
            rfind(v@, c) == rfind(v@.take(i as int), c),
        decreases i,
    {
        assert(v@.take(i as int).drop_last() =~= v@.take(i - 1));
        i -= 1;
        if v[i] == c {
            return Some(i);
        }
    }
    None
}

/// Whether `c` occurs in a text.
pub open spec fn has(s: Seq<char>, c: char) -> bool {
    find(s, c) is Some
}

pub fn has_char(s: &str, c: char) -> (r: bool)
    ensures
        r == has(s@, c),
{
    let v = chars_of(s);
    find_char(&v, c).is_some()
}

/// How often `c` occurs in a text.
pub fn count_char(s: &str, c: char) -> (r: usize)
    ensures
        r == occurrences(s@, c),
{
    let v = chars_of(s);
    let mut n: usize = 0;
    let mut i: usize = 0;
    while i < v.len()
        invariant
            i <= v@.len(),
            n <= i,
            n == occurrences(v@.take(i as int), c),
        decreases v@.len() - i,
    {
        assert(v@.take(i + 1).drop_last() =~= v@.take(i as int));
        if v[i] == c {
            n += 1;
        }
        i += 1;
    }
    assert(v@.take(i as int) =~= v@);
    n
}

/// The parts of a text before and behind its first `c`.
pub open spec fn split_once(s: Seq<char>, c: char) -> Option<(Seq<char>, Seq<char>)> {
    match find(s, c) {
        Some(i) => Some((s.take(i), s.skip(i + 1))),
        None => None,
    }
}

/// The parts of a text before and behind its last `c`.
pub open spec fn rsplit_once(s: Seq<char>, c: char) -> Option<(Seq<char>, Seq<char>)> {
    match rfind(s, c) {
        Some(i) => Some((s.take(i), s.skip(i + 1))),
        None => None,
    }
}

/// A pair of texts.
pub open spec fn opt_pair(p: Option<(String, String)>) -> Option<(Seq<char>, Seq<char>)> {
    match p {
        Some((a, b)) => Some((a@, b@)),
        None => None,
    }
}

pub fn split_first(s: &str, c: char) -> (r: Option<(String, String)>)
    ensures
        opt_pair(r) == split_once(s@, c),
{
    let v = chars_of(s);
    match find_char(&v, c) {
        Some(i) => {
            let n: usize = v.len();
            let a = sub_text(&v, 0, i);
            let b = sub_text(&v, i + 1, n);
            assert(a@ =~= s@.take(i as int));
            assert(b@ =~= s@.skip(i + 1));
            Some((a, b))
        },
        None => None,
    }
}

pub fn split_last(s: &str, c: char) -> (r: Option<(String, String)>)
    ensures
        opt_pair(r) == rsplit_once(s@, c),
{
    let v = chars_of(s);
    match rfind_char(&v, c) {
        Some(i) => {
            let n: usize = v.len();
            let a = sub_text(&v, 0, i);
            let b = sub_text(&v, i + 1, n);
            assert(a@ =~= s@.take(i as int));
            assert(b@ =~= s@.skip(i + 1));
            Some((a, b))
        },
        None => None,
    }
}

/// Whether a text starts with another.
pub open spec fn starts(s: Seq<char>, p: Seq<char>) -> bool {
    p.len() <= s.len() && s.take(p.len() as int) == p
}

/// Whether a text ends with another.
pub open spec fn ends(s: Seq<char>, p: Seq<char>) -> bool {
    p.len() <= s.len() && s.skip(s.len() - p.len()) == p
}

pub fn starts_with(s: &str, p: &str) -> (r: bool)
    ensures
        r == starts(s@, p@),
{
    let v = chars_of(s);
    let w = chars_of(p);
    if w.len() > v.len() {
        return false;
    }
    let head = sub_text(&v, 0, w.len());
    assert(head@ =~= s@.take(p@.len() as int));
    same(head.as_str(), p)
}

pub fn ends_with(s: &str, p: &str) -> (r: bool)
    ensures
        r == ends(s@, p@),
{
    let v = chars_of(s);
    let w = chars_of(p);
    if w.len() > v.len() {
        return false;
    }
    let tail = sub_text(&v, v.len() - w.len(), v.len());
    assert(tail@ =~= s@.skip(s@.len() - p@.len()));
    same(tail.as_str(), p)
}

/// What follows a prefix that the text starts with.
pub fn after_prefix(s: &str, p: &str) -> (r: Option<String>)
    ensures
        opt_text(r) == if starts(s@, p@) {
            Some(s@.skip(p@.len() as int))
        } else {
            None
        },
{
    if !starts_with(s, p) {
        return None;
    }
    let v = chars_of(s);
    let w = chars_of(p);
    let tail = sub_text(&v, w.len(), v.len());
    assert(tail@ =~= s@.skip(p@.len() as int));
    Some(tail)
}

// ---- Splitting and joining ----

/// The parts of a text between the occurrences of `sep`: one more than there
/// are occurrences.
pub open spec fn split(s: Seq<char>, sep: char) -> Seq<Seq<char>>
    decreases s.len(),
{
    if s.len() == 0 {
        seq![Seq::empty()]
    } else {
        let before = split(s.drop_last(), sep);
        if s.last() == sep {
            before.push(Seq::empty())
        } else {
            before.drop_last().push(before.last().push(s.last()))
        }
    }
}

/// The parts joined by `sep`.
pub open spec fn join(parts: Seq<Seq<char>>, sep: Seq<char>) -> Seq<char>
    decreases parts.len(),
{
    if parts.len() == 0 {
        Seq::empty()
    } else if parts.len() == 1 {
        parts[0]
    } else {
        join(parts.drop_last(), sep) + sep + parts.last()
    }
}

/// A split text has at least one part, and the parts hold no separator.
pub proof fn lemma_split_parts(s: Seq<char>, sep: char)
    ensures
        split(s, sep).len() == occurrences(s, sep) + 1,
        split(s, sep).len() >= 1,
        forall|i: int, j: int|
            0 <= i < split(s, sep).len() && 0 <= j < split(s, sep)[i].len() ==> split(s, sep)[i][j]
                != sep,
    decreases s.len(),
{
    if s.len() > 0 {
        lemma_split_parts(s.drop_last(), sep);
    }
}

/// Joining the parts of a split text gives the text back.
pub proof fn split_then_join(s: Seq<char>, sep: char)
    ensures
        join(split(s, sep), seq![sep]) == s,
    decreases s.len(),
{
    if s.len() == 0 {
        assert(join(split(s, sep), seq![sep]) =~= s);
    } else {
        let t = s.drop_last();
        let before = split(t, sep);
        split_then_join(t, sep);
        lemma_split_parts(t, sep);
        let parts = split(s, sep);
        if s.last() == sep {
            assert(parts.drop_last() =~= before);
            assert(join(parts, seq![sep]) =~= join(before, seq![sep]) + seq![sep] + Seq::empty());
            assert(join(parts, seq![sep]) =~= s);
        } else {
            assert(parts.drop_last() =~= before.drop_last());
            assert(parts.last() =~= before.last().push(s.last()));
            if before.len() == 1 {
                assert(join(before, seq![sep]) == before[0]);
                assert(join(parts, seq![sep]) == parts[0]);
            } else {
                assert(join(parts, seq![sep]) =~= join(before, seq![sep]).push(s.last()));
            }
            assert(join(parts, seq![sep]) =~= s);
        }
    }
}

/// Splits a text at every `sep`.
pub fn split_text(s: &str, sep: char) -> (r: Vec<String>)
    ensures
        texts(r@) == split(s@, sep),
        r@.len() >= 1,
{
    let mut done: Vec<String> = Vec::new();
    let mut cur = String::new();
    assert(texts(done@).push(cur@) =~= split(s@.take(0), sep));
    for c in it: s.chars()
        invariant
            texts(done@).push(cur@) == split(it.seq().take(it.index() as int), sep),
            it.seq() == s@,
    {
        let ghost before = split(it.seq().take(it.index() as int), sep);
        let ghost done0 = done@;
        let ghost cur0 = cur@;
        assert(before.last() == cur0);
        assert(before.drop_last() =~= texts(done0));
        assert(it.seq().take(it.index() + 1).drop_last() =~= it.seq().take(it.index() as int));
        if c == sep {
            done.push(cur);
            cur = String::new();
            assert(texts(done@) =~= texts(done0).push(cur0));
        } else {
            cur.push(c);
        }
        assert(texts(done@).push(cur@) =~= split(it.seq().take(it.index() + 1), sep));
    }
    assert(s@.take(s@.len() as int) =~= s@);
    let ghost done0 = done@;
    let ghost cur0 = cur@;
    done.push(cur);
    assert(texts(done@) =~= texts(done0).push(cur0));
    done
}

/// The parts from `from` on joined by `sep`.
pub fn join_texts(parts: &Vec<String>, from: usize, sep: &str) -> (r: String)
    requires
        from <= parts@.len(),
    ensures
        r@ == join(texts(parts@.skip(from as int)), sep@),
{
    let mut out = String::new();
    let mut i: usize = from;
    let ghost all = texts(parts@.skip(from as int));
    assert(out@ =~= join(all.take(0), sep@));
    while i < parts.len()
        invariant
            from <= i <= parts@.len(),
            all == texts(parts@.skip(from as int)),
            out@ == join(all.take(i - from), sep@),
        decreases parts@.len() - i,
    {
        let ghost k = i - from;
        assert(all.take(k + 1).drop_last() =~= all.take(k));
        assert(all.take(k + 1).last() == parts@[i as int]@);
        if i > from {
            out.append(sep);
        }
        out.append(parts[i].as_str());
        proof {
            if k == 0 {
                assert(out@ =~= parts@[i as int]@);
            }
        }
        assert(out@ =~= join(all.take(k + 1), sep@));
        i += 1;
    }
    assert(all.take(all.len() as int) =~= all);
    out
}

/// The characters with the Unicode property White_Space.
pub open spec fn white(c: char) -> bool {
    let n = c as u32;
    ||| 0x09 <= n <= 0x0d
    ||| n == 0x20
    ||| n == 0x85
    ||| n == 0xa0
    ||| n == 0x1680
    ||| 0x2000 <= n <= 0x200a
    ||| n == 0x2028
    ||| n == 0x2029
    ||| n == 0x202f
    ||| n == 0x205f
    ||| n == 0x3000
}

pub fn is_white(c: char) -> (r: bool)
    ensures
        r == white(c),
{
    let n: u32 = c as u32;
    (0x09 <= n && n <= 0x0d) || n == 0x20 || n == 0x85 || n == 0xa0 || n == 0x1680 || (0x2000 <= n
        && n <= 0x200a) || n == 0x2028 || n == 0x2029 || n == 0x202f || n == 0x205f || n == 0x3000
}

/// The words of a text that are complete, and the one that it ends in.
pub open spec fn word_scan(s: Seq<char>) -> (Seq<Seq<char>>, Seq<char>)
    decreases s.len(),
{
    if s.len() == 0 {
        (Seq::empty(), Seq::empty())
    } else {
        let (done, cur) = word_scan(s.drop_last());
        if !white(s.last()) {
            (done, cur.push(s.last()))
        } else if cur.len() > 0 {
            (done.push(cur), Seq::empty())
        } else {
            (done, cur)
        }
    }
}

/// The words of a text: its longest parts without white space.
pub open spec fn words(s: Seq<char>) -> Seq<Seq<char>> {
    let (done, cur) = word_scan(s);
    if cur.len() > 0 {
        done.push(cur)
    } else {
        done
    }
}

/// Splits a text at white space.
pub fn split_words(s: &str) -> (r: Vec<String>)
    ensures
        texts(r@) == words(s@),
{
    let mut done: Vec<String> = Vec::new();
    let mut cur = String::new();
    let mut len: usize = 0;
    assert(texts(done@) =~= Seq::<Seq<char>>::empty());
    for c in it: s.chars()
        invariant
            word_scan(it.seq().take(it.index() as int)) == (texts(done@), cur@),
            (len > 0) == (cur@.len() > 0),
            it.seq() == s@,
    {
        let ghost done0 = done@;
        let ghost cur0 = cur@;
        assert(it.seq().take(it.index() + 1).drop_last() =~= it.seq().take(it.index() as int));
        if !is_white(c) {
            cur.push(c);
            len = 1;
        } else if len > 0 {
            done.push(cur);
            cur = String::new();
            len = 0;
            assert(texts(done@) =~= texts(done0).push(cur0));
        }
    }
    assert(s@.take(s@.len() as int) =~= s@);
    if len > 0 {
        let ghost done0 = done@;
        let ghost cur0 = cur@;
        done.push(cur);
        assert(texts(done@) =~= texts(done0).push(cur0));
    }
    done
}

/// A text without the white space at its end.
pub open spec fn trim_end(s: Seq<char>) -> Seq<char>
    decreases s.len(),
{
    if s.len() > 0 && white(s.last()) {
        trim_end(s.drop_last())
    } else {
        s
    }
}

/// A text without the white space at its start.
pub open spec fn trim_start(s: Seq<char>) -> Seq<char>
    decreases s.len(),
{
    if s.len() > 0 && white(s[0]) {
        trim_start(s.skip(1))
    } else {
        s
    }
}

/// A text without the white space around it.
pub open spec fn trim(s: Seq<char>) -> Seq<char> {
    trim_end(trim_start(s))
}

pub fn trimmed(s: &str) -> (r: String)
    ensures
        r@ == trim(s@),
{
    let v = chars_of(s);
    let mut a: usize = 0;
    assert(v@.skip(0) =~= v@);
    while a < v.len() && is_white(v[a])
        invariant
            a <= v@.len(),
            trim_start(v@) == trim_start(v@.skip(a as int)),
        decreases v@.len() - a,
    {
        assert(v@.skip(a as int).skip(1) =~= v@.skip(a + 1));
        a += 1;
    }
    let mut b: usize = v.len();
    let ghost t = v@.skip(a as int);
    assert(trim_start(v@) == t);
    assert(t =~= v@.subrange(a as int, b as int));
    while b > a && is_white(v[b - 1])
        invariant
            a <= b <= v@.len(),
            trim_end(t) == trim_end(v@.subrange(a as int, b as int)),
        decreases b,
    {
        assert(v@.subrange(a as int, b as int).drop_last() =~= v@.subrange(a as int, b - 1));
        b -= 1;
    }
    sub_text(&v, a, b)
}

/// The index of the first occurrence of `p` in `s`, from index `i` on.
pub open spec fn find_text(s: Seq<char>, p: Seq<char>, i: int) -> Option<int>
    decreases s.len() + 1 - i,
{
    if i < 0 || i + p.len() > s.len() {
        None
    } else if s.subrange(i, i + p.len()) == p {
        Some(i)
    } else {
        find_text(s, p, i + 1)
    }
}

/// What follows the first occurrence of `p` in `s`.
pub open spec fn after(s: Seq<char>, p: Seq<char>) -> Option<Seq<char>> {
    match find_text(s, p, 0) {
        Some(i) => Some(s.skip(i + p.len())),
        None => None,
    }
}

/// `s` from the first occurrence of `p` on.
pub open spec fn from(s: Seq<char>, p: Seq<char>) -> Option<Seq<char>> {
    match find_text(s, p, 0) {
        Some(i) => Some(s.skip(i)),
        None => None,
    }
}

/// Whether `p` occurs in `s`.
pub open spec fn holds(s: Seq<char>, p: Seq<char>) -> bool {
    find_text(s, p, 0) is Some
}

/// `find_text` gives an index at which the text stands.
pub proof fn lemma_find_text(s: Seq<char>, p: Seq<char>, i: int)
    requires
        0 <= i,
    ensures
        find_text(s, p, i) matches Some(j) ==> i <= j && j + p.len() <= s.len() && s.subrange(
            j,
            j + p.len(),
        ) == p,
    decreases s.len() + 1 - i,
{
    if i + p.len() <= s.len() && s.subrange(i, i + p.len()) != p {
        lemma_find_text(s, p, i + 1);
    }
}

fn index_of(v: &Vec<char>, p: &str) -> (r: Option<usize>)
    ensures
        match (r, find_text(v@, p@, 0)) {
            (Some(i), Some(j)) => i == j && i + p@.len() <= v@.len(),
            (None, None) => true,
            _ => false,
        },
{
    let n: usize = v.len();
    let m: usize = chars_of(p).len();
    let mut i: usize = 0;
    while m <= n && i <= n - m
        invariant
            n == v@.len(),
            m == p@.len(),
            i <= n,
            find_text(v@, p@, 0) == find_text(v@, p@, i as int),
        decreases n + 1 - i,
    {
        if same(sub_text(v, i, i + m).as_str(), p) {
            return Some(i);
        }
        if i == n {
            assert(m == 0);
            assert(v@.subrange(i as int, i as int) =~= p@);
        }
        i += 1;
    }
    None
}

pub fn text_after(s: &str, p: &str) -> (r: Option<String>)
    ensures
        opt_text(r) == after(s@, p@),
{
    let v = chars_of(s);
    let n: usize = v.len();
    let m: usize = chars_of(p).len();
    match index_of(&v, p) {
        Some(i) => {
            let t = sub_text(&v, i + m, n);
            assert(t@ =~= s@.skip(i + m));
            Some(t)
        },
        None => None,
    }
}

pub fn text_from(s: &str, p: &str) -> (r: Option<String>)
    ensures
        opt_text(r) == from(s@, p@),
{
    let v = chars_of(s);
    let n: usize = v.len();
    match index_of(&v, p) {
        Some(i) => {
            let t = sub_text(&v, i, n);
            assert(t@ =~= s@.skip(i as int));
            Some(t)
        },
        None => None,
    }
}

pub fn contains_text(s: &str, p: &str) -> (r: bool)
    ensures
        r == holds(s@, p@),
{
    let v = chars_of(s);
    index_of(&v, p).is_some()
}

/// A line without the carriage return at its end.
pub open spec fn without_cr(s: Seq<char>) -> Seq<char> {
    if s.len() > 0 && s.last() == '\r' {
        s.drop_last()
    } else {
        s
    }
}

/// The complete lines of a text, and what follows the last line end.
pub open spec fn line_scan(s: Seq<char>) -> (Seq<Seq<char>>, Seq<char>)
    decreases s.len(),
{
    if s.len() == 0 {
        (Seq::empty(), Seq::empty())
    } else {
        let (done, cur) = line_scan(s.drop_last());
        if s.last() == '\n' {
            (done.push(without_cr(cur)), Seq::empty())
        } else {
            (done, cur.push(s.last()))
        }
    }
}

/// The lines of a text, without their ends.
pub open spec fn lines(s: Seq<char>) -> Seq<Seq<char>> {
    let (done, cur) = line_scan(s);
    if cur.len() > 0 {
        done.push(cur)
    } else {
        done
    }
}

/// Splits a text into lines.
pub fn split_lines(s: &str) -> (r: Vec<String>)
    ensures
        texts(r@) == lines(s@),
{
    let mut done: Vec<String> = Vec::new();
    let mut cur: Vec<char> = Vec::new();
    assert(texts(done@) =~= Seq::<Seq<char>>::empty());
    for c in it: s.chars()
        invariant
            line_scan(it.seq().take(it.index() as int)) == (texts(done@), cur@),
            it.seq() == s@,
    {
        let ghost done0 = done@;
        let ghost cur0 = cur@;
        assert(it.seq().take(it.index() + 1).drop_last() =~= it.seq().take(it.index() as int));
        if c == '\n' {
            let n: usize = cur.len();
            let line = if n > 0 && cur[n - 1] == '\r' {
                sub_text(&cur, 0, n - 1)
            } else {
                string_of(cur.as_slice())
            };
            assert(line@ =~= without_cr(cur0));
            done.push(line);
            cur = Vec::new();
            assert(texts(done@) =~= texts(done0).push(without_cr(cur0)));
        } else {
            cur.push(c);
        }
    }
    assert(s@.take(s@.len() as int) =~= s@);
    if cur.len() > 0 {
        let ghost done0 = done@;
        let ghost cur0 = cur@;
        done.push(string_of(cur.as_slice()));
        assert(texts(done@) =~= texts(done0).push(cur0));
    }
    done
}

/// How many ASCII digits a text has from index `i` on.
pub open spec fn digit_run(s: Seq<char>, i: int) -> int
    decreases s.len() - i,
{
    if 0 <= i < s.len() && '0' <= s[i] && s[i] <= '9' {
        1 + digit_run(s, i + 1)
    } else {
        0
    }
}

/// The digits that a text starts with.
pub open spec fn leading_digits(s: Seq<char>) -> Seq<char> {
    s.take(digit_run(s, 0))
}

pub fn digits_at_start(s: &str) -> (r: String)
    ensures
        r@ == leading_digits(s@),
{
    let v = chars_of(s);
    let mut i: usize = 0;
    while i < v.len() && '0' <= v[i] && v[i] <= '9'
        invariant
            i <= v@.len(),
            digit_run(v@, 0) == i + digit_run(v@, i as int),
        decreases v@.len() - i,
    {
        i += 1;
    }
    let t = sub_text(&v, 0, i);
    assert(t@ =~= leading_digits(s@));
    t
}

// ---- Numbers ----

/// The value of a digit, up to base 16; 16 for any other character.
pub open spec fn digit_value(c: char) -> int {
    if '0' <= c && c <= '9' {
        c as int - '0' as int
    } else if 'a' <= c && c <= 'f' {
        c as int - 'a' as int + 10
    } else if 'A' <= c && c <= 'F' {
        c as int - 'A' as int + 10
    } else {
        16
    }
}

fn digit(c: char) -> (r: u64)
    ensures
        r == digit_value(c),
{
    if '0' <= c && c <= '9' {
        (c as u32 - '0' as u32) as u64
    } else if 'a' <= c && c <= 'f' {
        (c as u32 - 'a' as u32) as u64 + 10
    } else if 'A' <= c && c <= 'F' {
        (c as u32 - 'A' as u32) as u64 + 10
    } else {
        16
    }
}

/// Every character is a digit of the base.
pub open spec fn all_digits(s: Seq<char>, radix: int) -> bool {
    forall|i: int| 0 <= i < s.len() ==> digit_value(#[trigger] s[i]) < radix
}

/// The number that digits write.
pub open spec fn number_of(s: Seq<char>, radix: int) -> int
    decreases s.len(),
{
    if s.len() == 0 {
        0
    } else {
        number_of(s.drop_last(), radix) * radix + digit_value(s.last())
    }
}

/// The unsigned number a text writes: an optional plus sign and at least one
/// digit, no larger than `max`.
pub open spec fn parse_number(s: Seq<char>, radix: int, max: int) -> Option<int> {
    let digits = if s.len() > 0 && s[0] == '+' {
        s.skip(1)
    } else {
        s
    };
    if digits.len() > 0 && all_digits(digits, radix) && number_of(digits, radix) <= max {
        Some(number_of(digits, radix))
    } else {
        None
    }
}

proof fn lemma_number_grows(s: Seq<char>, radix: int, n: int)
    requires
        0 <= n <= s.len(),
        radix == 10 || radix == 16,
    ensures
        0 <= number_of(s.take(n), radix) <= number_of(s, radix),
    decreases s.len() - n,
{
    lemma_number_nonnegative(s.take(n), radix);
    if n == s.len() {
        assert(s.take(n) =~= s);
    } else {
        lemma_number_grows(s, radix, n + 1);
        assert(s.take(n + 1).drop_last() =~= s.take(n));
        let v = number_of(s.take(n), radix);
        assert(v <= v * radix) by (nonlinear_arith)
            requires
                v >= 0,
                radix >= 1,
        ;
    }
}

proof fn lemma_number_nonnegative(s: Seq<char>, radix: int)
    requires
        radix == 10 || radix == 16,
    ensures
        number_of(s, radix) >= 0,
    decreases s.len(),
{
    if s.len() > 0 {
        lemma_number_nonnegative(s.drop_last(), radix);
        let v = number_of(s.drop_last(), radix);
        assert(v * radix >= 0) by (nonlinear_arith)
            requires
                v >= 0,
                radix >= 1,
        ;
    }
}

/// One more digit.
proof fn lemma_next_digit(s: Seq<char>, k: int, radix: int)
    requires
        0 <= k < s.len(),
        all_digits(s.take(k), radix),
        digit_value(s[k]) < radix,
    ensures
        all_digits(s.take(k + 1), radix),
        number_of(s.take(k + 1), radix) == number_of(s.take(k), radix) * radix + digit_value(s[k]),
{
    assert(s.take(k + 1).drop_last() =~= s.take(k));
    assert forall|j: int| 0 <= j < k + 1 implies digit_value(#[trigger] s.take(k + 1)[j])
        < radix by {
        if j < k {
            assert(s.take(k + 1)[j] == s.take(k)[j]);
        }
    }
}

/// Reads digits of base 10 or 16.
fn read_digits(v: &[char], radix: u64, max: u64) -> (r: Option<u64>)
    requires
        radix == 10 || radix == 16,
    ensures
        match r {
            Some(n) => all_digits(v@, radix as int) && n == number_of(v@, radix as int) && n <= max,
            None => !all_digits(v@, radix as int) || number_of(v@, radix as int) > max,
        },
{
    let len: usize = v.len();
    let mut n: u64 = 0;
    let mut i: usize = 0;
    while i < len
        invariant
            i <= len,
            len == v@.len(),
            radix == 10 || radix == 16,
            all_digits(v@.take(i as int), radix as int),
            n == number_of(v@.take(i as int), radix as int),
            n <= max,
        decreases len - i,
    {
        let d: u64 = digit(v[i]);
        if d >= radix {
            assert(digit_value(v@[i as int]) >= radix);
            return None;
        }
        proof {
            lemma_next_digit(v@, i as int, radix as int);
        }
        let next: u128 = if radix == 10 {
            (n as u128) * 10 + (d as u128)
        } else {
            (n as u128) * 16 + (d as u128)
        };
        assert(next == number_of(v@.take(i + 1), radix as int));
        if next > max as u128 {
            proof {
                lemma_number_grows(v@, radix as int, i + 1);
            }
            return None;
        }
        n = next as u64;
        i += 1;
    }
    assert(v@.take(len as int) =~= v@);
    Some(n)
}

/// Reads an unsigned number of base 10 or 16.
pub fn read_number(s: &str, radix: u64, max: u64) -> (r: Option<u64>)
    requires
        radix == 10 || radix == 16,
    ensures
        match (r, parse_number(s@, radix as int, max as int)) {
            (Some(n), Some(m)) => n == m && n <= max,
            (None, None) => true,
            _ => false,
        },
{
    let v = chars_of(s);
    let n: usize = v.len();
    let start: usize = if n > 0 && v[0] == '+' {
        1
    } else {
        0
    };
    if start == n {
        return None;
    }
    let digits = vstd::slice::slice_subrange(v.as_slice(), start, n);
    assert(digits@ =~= if s@.len() > 0 && s@[0] == '+' {
        s@.skip(1)
    } else {
        s@
    });
    read_digits(digits, radix, max)
}

/// The digit of a value below 16.
pub open spec fn digit_char(d: int) -> char {
    if d < 10 {
        (48 + d) as char
    } else {
        (87 + d) as char
    }
}

fn to_digit(d: u64) -> (r: char)
    requires
        d < 16,
    ensures
        r == digit_char(d as int),
{
    if d < 10 {
        (48 + d as u8) as char
    } else {
        (87 + d as u8) as char
    }
}

/// The digits of a number, without leading zeros.
pub open spec fn digits(n: int, radix: int) -> Seq<char>
    decreases n,
    when 0 <= n && radix > 1
    via digits_end
{
    if n < radix {
        seq![digit_char(n)]
    } else {
        digits(n / radix, radix).push(digit_char(n % radix))
    }
}

#[via_fn]
proof fn digits_end(n: int, radix: int) {
    assert(n >= radix ==> 0 <= n / radix < n) by (nonlinear_arith)
        requires
            0 <= n,
            radix > 1,
    ;
}

/// A number in base 10.
pub open spec fn decimal(n: int) -> Seq<char> {
    digits(n, 10)
}

/// A number in base 16.
pub open spec fn hex(n: int) -> Seq<char> {
    digits(n, 16)
}

fn digits_text(n: u64, radix: u64) -> (r: String)
    requires
        radix == 10 || radix == 16,
    ensures
        r@ == digits(n as int, radix as int),
    decreases n,
{
    if n < radix {
        let mut s = String::new();
        s.push(to_digit(n));
        assert(s@ =~= digits(n as int, radix as int));
        s
    } else {
        let mut s = digits_text(n / radix, radix);
        s.push(to_digit(n % radix));
        s
    }
}

pub fn decimal_text(n: u64) -> (r: String)
    ensures
        r@ == decimal(n as int),
{
    digits_text(n, 10)
}

pub fn hex_text(n: u64) -> (r: String)
    ensures
        r@ == hex(n as int),
{
    digits_text(n, 16)
}

/// A byte as two digits of base 16.
pub open spec fn hex_byte(b: u8) -> Seq<char> {
    seq![digit_char(b as int / 16), digit_char(b as int % 16)]
}

/// Bytes in base 16, separated by spaces.
pub open spec fn hex_bytes(b: Seq<u8>) -> Seq<char>
    decreases b.len(),
{
    if b.len() == 0 {
        Seq::empty()
    } else if b.len() == 1 {
        hex_byte(b[0])
    } else {
        hex_bytes(b.drop_last()) + " "@ + hex_byte(b.last())
    }
}

/// Bytes as a text of two hexadecimal digits each, separated by spaces.
pub fn key_to_hex(bytes: &[u8]) -> (r: String)
    ensures
        r@ == hex_bytes(bytes@),
{
    let mut s = String::new();
    let n: usize = bytes.len();
    let mut i: usize = 0;
    assert(s@ =~= hex_bytes(bytes@.take(0)));
    while i < n
        invariant
            i <= n,
            n == bytes@.len(),
            s@ == hex_bytes(bytes@.take(i as int)),
        decreases n - i,
    {
        let b: u8 = bytes[i];
        assert(bytes@.take(i + 1).drop_last() =~= bytes@.take(i as int));
        if i > 0 {
            s.append(" ");
        }
        let ghost head = s@;
        s.push(to_digit((b / 16) as u64));
        s.push(to_digit((b % 16) as u64));
        assert(s@ =~= head + hex_byte(b));
        if i == 0 {
            assert(s@ =~= hex_byte(b));
        }
        assert(s@ =~= hex_bytes(bytes@.take(i + 1)));
        i += 1;
    }
    assert(bytes@.take(n as int) =~= bytes@);
    s
}

// ---- Columns ----

/// `n` spaces.
pub open spec fn spaces(n: int) -> Seq<char> {
    Seq::new(
        if n > 0 {
            n as nat
        } else {
            0
        },
        |i: int| ' ',
    )
}

/// A text filled up with spaces on the right.
pub open spec fn pad_right(s: Seq<char>, width: int) -> Seq<char> {
    s + spaces(width - s.len())
}

/// A text filled up with spaces on the left.
pub open spec fn pad_left(s: Seq<char>, width: int) -> Seq<char> {
    spaces(width - s.len()) + s
}

fn space_text(n: usize) -> (r: String)
    ensures
        r@ == spaces(n as int),
{
    let mut s = String::new();
    let mut i: usize = 0;
    assert(s@ =~= spaces(0));
    while i < n
        invariant
            i <= n,
            s@ == spaces(i as int),
        decreases n - i,
    {
        s.push(' ');
        i += 1;
        assert(s@ =~= spaces(i as int));
    }
    s
}

pub fn padded_right(s: &str, width: usize) -> (r: String)
    ensures
        r@ == pad_right(s@, width as int),
{
    let len: usize = chars_of(s).len();
    let mut out = s.to_owned();
    if len < width {
        out.append(space_text(width - len).as_str());
    }
    assert(out@ =~= pad_right(s@, width as int));
    out
}

pub fn padded_left(s: &str, width: usize) -> (r: String)
    ensures
        r@ == pad_left(s@, width as int),
{
    let len: usize = chars_of(s).len();
    let mut out = space_text(if len < width {
        width - len
    } else {
        0
    });
    out.append(s);
    assert(out@ =~= pad_left(s@, width as int));
    out
}

/// Appends a number in base 10.
pub fn push_decimal(s: &mut String, n: u64)
    ensures
        final(s)@ == old(s)@ + decimal(n as int),
{
    s.append(decimal_text(n).as_str());
}

// ---- Laws ----

proof fn lemma_digit_char(d: int)
    requires
        0 <= d < 16,
    ensures
        digit_value(digit_char(d)) == d,
        digit_char(d) != '+',
        !white(digit_char(d)),
{
}

pub proof fn lemma_digits(n: int, radix: int)
    requires
        0 <= n,
        radix == 10 || radix == 16,
    ensures
        digits(n, radix).len() > 0,
        all_digits(digits(n, radix), radix),
        number_of(digits(n, radix), radix) == n,
        digits(n, radix)[0] != '+',
        forall|i: int|
            0 <= i < digits(n, radix).len() ==> digit_value(#[trigger] digits(n, radix)[i]) < 16
                && !white(digits(n, radix)[i]),
    decreases n,
{
    let s = digits(n, radix);
    if n < radix {
        lemma_digit_char(n);
        assert(s.drop_last() =~= Seq::empty());
        assert(number_of(s.drop_last(), radix) == 0);
        assert(0 * radix == 0);
        assert(s.last() == digit_char(n));
    } else {
        assert(0 <= n / radix < n) by (nonlinear_arith)
            requires
                0 <= n,
                n >= radix,
                radix > 1,
        ;
        lemma_digits(n / radix, radix);
        assert(0 <= n % radix < radix);
        lemma_digit_char(n % radix);
        let t = digits(n / radix, radix);
        assert(s == t.push(digit_char(n % radix)));
        assert(s.drop_last() =~= t);
        assert(n == (n / radix) * radix + n % radix) by (nonlinear_arith)
            requires
                radix > 1,
        ;
        assert forall|i: int| 0 <= i < s.len() implies digit_value(#[trigger] s[i]) < radix by {
            if i < t.len() {
                assert(s[i] == t[i]);
            }
        }
        assert(s[0] == t[0]);
    }
}

/// A number that was written is read back, up to any bound that it keeps.
pub proof fn number_roundtrip(n: int, radix: int, max: int)
    requires
        0 <= n <= max,
        radix == 10 || radix == 16,
    ensures
        parse_number(digits(n, radix), radix, max) == Some(n),
{
    lemma_digits(n, radix);
}

/// A written number holds only digits.
pub proof fn lemma_digits_only(n: int, radix: int, c: char)
    requires
        0 <= n,
        radix == 10 || radix == 16,
        digit_value(c) == 16,
    ensures
        forall|i: int| 0 <= i < digits(n, radix).len() ==> #[trigger] digits(n, radix)[i] != c,
        digits(n, radix).len() > 0,
{
    lemma_digits(n, radix);
}

/// A written number holds no white space.
pub proof fn lemma_digits_are_a_word(n: int, radix: int)
    requires
        0 <= n,
        radix == 10 || radix == 16,
    ensures
        digits(n, radix).len() > 0,
        forall|i: int| 0 <= i < digits(n, radix).len() ==> !white(#[trigger] digits(n, radix)[i]),
{
    lemma_digits(n, radix);
}

proof fn lemma_split_push(s: Seq<char>, t: Seq<char>, sep: char)
    requires
        forall|i: int| 0 <= i < t.len() ==> t[i] != sep,
    ensures
        split(s + t, sep) == split(s, sep).drop_last().push(split(s, sep).last() + t),
    decreases t.len(),
{
    lemma_split_parts(s, sep);
    if t.len() == 0 {
        assert(s + t =~= s);
        assert(split(s, sep).last() + t =~= split(s, sep).last());
        assert(split(s, sep).drop_last().push(split(s, sep).last()) =~= split(s, sep));
    } else {
        let u = t.drop_last();
        assert forall|i: int| 0 <= i < u.len() implies u[i] != sep by {
            assert(u[i] == t[i]);
        }
        lemma_split_push(s, u, sep);
        assert((s + t).drop_last() =~= s + u);
        assert((s + t).last() == t.last());
        assert(t.last() != sep);
        let before = split(s + u, sep);
        assert(before.drop_last() =~= split(s, sep).drop_last());
        assert(before.last().push(t.last()) =~= split(s, sep).last() + t);
    }
}

/// Splitting joined parts gives the parts back, where none holds the
/// separator.
pub proof fn join_then_split(parts: Seq<Seq<char>>, sep: char)
    requires
        parts.len() > 0,
        forall|i: int, j: int|
            0 <= i < parts.len() && 0 <= j < parts[i].len() ==> parts[i][j] != sep,
    ensures
        split(join(parts, seq![sep]), sep) == parts,
    decreases parts.len(),
{
    if parts.len() == 1 {
        lemma_split_push(Seq::empty(), parts[0], sep);
        assert(Seq::<char>::empty() + parts[0] =~= parts[0]);
        assert(split(Seq::<char>::empty(), sep) =~= seq![Seq::<char>::empty()]);
        assert(split(parts[0], sep) =~= parts);
    } else {
        let rest = parts.drop_last();
        assert forall|i: int, j: int|
            0 <= i < rest.len() && 0 <= j < rest[i].len() implies rest[i][j] != sep by {
            assert(rest[i] == parts[i]);
        }
        join_then_split(rest, sep);
        let head = join(rest, seq![sep]);
        let t = head + seq![sep];
        assert(t.drop_last() =~= head);
        assert(split(t, sep) =~= rest.push(Seq::empty()));
        let last = parts.last();
        assert forall|i: int| 0 <= i < last.len() implies last[i] != sep by {
            assert(last == parts[parts.len() - 1]);
        }
        lemma_split_push(t, last, sep);
        assert(Seq::<char>::empty() + last =~= last);
        assert(split(t, sep).drop_last() =~= rest);
        assert(rest.push(last) =~= parts);
    }
}

} // verus!
