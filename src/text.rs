//! Character-level helpers over string views: splitting on a delimiter,
//! line splitting and substring search.

use vstd::prelude::*;
use vstd::std_specs::iter::IteratorSpec;

verus! {

/// The characters of `s`, in order.
pub fn chars_of(s: &str) -> (r: Vec<char>)
    ensures
        r@ == s@,
{
    let mut out: Vec<char> = Vec::new();
    for c in it: s.chars()
        invariant
            out@ == it.seq().take(it.index() as int),
    {
        out.push(c);
    }
    proof {
        broadcast use vstd::string::group_string_axioms;
    }
    assert(out@ =~= s@);
    out
}

/// The views of a sequence of strings.
pub open spec fn views(v: Seq<String>) -> Seq<Seq<char>> {
    v.map_values(|x: String| x@)
}

/// The pieces of `s` between occurrences of `d`, in order. There is always
/// at least one piece; pieces may be empty.
pub open spec fn split_on(s: Seq<char>, d: char) -> Seq<Seq<char>>
    decreases s.len(),
{
    if s.len() == 0 {
        seq![Seq::empty()]
    } else {
        let front = split_on(s.drop_last(), d);
        if s.last() == d {
            front.push(Seq::empty())
        } else {
            front.update(front.len() - 1, front.last().push(s.last()))
        }
    }
}

pub proof fn lemma_split_on_nonempty(s: Seq<char>, d: char)
    ensures
        split_on(s, d).len() >= 1,
    decreases s.len(),
{
    if s.len() > 0 {
        lemma_split_on_nonempty(s.drop_last(), d);
    }
}

/// Splits `s` at every occurrence of `d`.
pub fn split_fields(s: &str, d: char) -> (r: Vec<String>)
    ensures
        views(r@) == split_on(s@, d),
{
    let cs = chars_of(s);
    let n = cs.len();
    let mut fields: Vec<String> = Vec::new();
    let mut start: usize = 0;
    let mut i: usize = 0;
    assert(s@.take(0) =~= Seq::<char>::empty());
    assert(views(fields@).push(s@.subrange(0, 0)) =~= split_on(s@.take(0), d));
    while i < n
        invariant
            n == s@.len(),
            cs@ == s@,
            start <= i <= n,
            views(fields@).push(s@.subrange(start as int, i as int)) == split_on(
                s@.take(i as int),
                d,
            ),
        decreases n - i,
    {
        let ghost before = s@.take(i as int);
        assert(s@.take(i as int + 1).drop_last() =~= before);
        assert(s@.take(i as int + 1).last() == cs@[i as int]);
        if cs[i] == d {
            let piece = s.substring_char(start, i).to_owned();
            let ghost prior = fields@;
            fields.push(piece);
            assert(fields@.drop_last() =~= prior);
            assert(views(fields@) =~= views(prior).push(piece@));
            assert(s@.subrange(i as int + 1, i as int + 1) =~= Seq::<char>::empty());
            assert(split_on(s@.take(i as int + 1), d) == split_on(before, d).push(Seq::empty()));
            assert(views(fields@).push(s@.subrange(i as int + 1, i as int + 1)) =~= split_on(
                s@.take(i as int + 1),
                d,
            ));
            start = i + 1;
        } else {
            assert(s@.subrange(start as int, i as int + 1) =~= s@.subrange(
                start as int,
                i as int,
            ).push(cs@[i as int]));
            assert(views(fields@).push(s@.subrange(start as int, i as int + 1)) =~= split_on(
                s@.take(i as int + 1),
                d,
            ));
        }
        i = i + 1;
    }
    let last = s.substring_char(start, n).to_owned();
    let ghost prior = fields@;
    fields.push(last);
    assert(fields@.drop_last() =~= prior);
    assert(s@.take(n as int) =~= s@);
    assert(views(fields@) =~= views(prior).push(last@));
    fields
}

/// `l` without one trailing carriage return, if it has one.
pub open spec fn strip_cr(l: Seq<char>) -> Seq<char> {
    if l.len() > 0 && l.last() == '\r' {
        l.drop_last()
    } else {
        l
    }
}

/// The lines of `s`. Lines end at `\n`, and a line so ended loses a
/// carriage return before it; a final line without `\n` is kept as it is
/// when it is not empty. An empty text has no lines.
pub open spec fn lines_of(s: Seq<char>) -> Seq<Seq<char>> {
    let pieces = split_on(s, '\n');
    let ended = pieces.drop_last().map_values(|l: Seq<char>| strip_cr(l));
    if pieces.last().len() == 0 {
        ended
    } else {
        ended.push(pieces.last())
    }
}

/// `s` without one trailing carriage return.
fn without_cr(s: &String) -> (r: String)
    ensures
        r@ == strip_cr(s@),
{
    let text = s.as_str();
    let n = text.unicode_len();
    if n > 0 && text.get_char(n - 1) == '\r' {
        text.substring_char(0, n - 1).to_owned()
    } else {
        s.clone()
    }
}

/// Splits `s` into its lines.
pub fn split_lines(s: &str) -> (r: Vec<String>)
    ensures
        views(r@) == lines_of(s@),
{
    let pieces = split_fields(s, '\n');
    proof {
        lemma_split_on_nonempty(s@, '\n');
    }
    let ghost p = split_on(s@, '\n');
    let n = pieces.len();
    assert(views(pieces@).len() == pieces@.len());
    let mut lines: Vec<String> = Vec::new();
    let mut i: usize = 0;
    while i + 1 < n
        invariant
            n == pieces@.len(),
            n >= 1,
            views(pieces@) == p,
            p == split_on(s@, '\n'),
            i + 1 <= n,
            views(lines@) == p.take(i as int).map_values(|l: Seq<char>| strip_cr(l)),
        decreases n - i,
    {
        let line = without_cr(&pieces[i]);
        assert(pieces@[i as int]@ == p[i as int]);
        let ghost prior = lines@;
        lines.push(line);
        assert(lines@.drop_last() =~= prior);
        assert(views(lines@) =~= views(prior).push(line@));
        assert(p.take(i as int + 1).map_values(|l: Seq<char>| strip_cr(l)) =~= p.take(
            i as int,
        ).map_values(|l: Seq<char>| strip_cr(l)).push(strip_cr(p[i as int])));
        i = i + 1;
    }
    assert(p.take(i as int) =~= p.drop_last());
    assert(pieces@[n - 1]@ == p.last());
    if pieces[n - 1].as_str().unicode_len() > 0 {
        let ghost prior = lines@;
        let last = pieces[n - 1].clone();
        lines.push(last);
        assert(lines@.drop_last() =~= prior);
        assert(views(lines@) =~= views(prior).push(last@));
    }
    lines
}

/// `w` occurs in `s` as a run of consecutive characters.
pub open spec fn occurs_in(w: Seq<char>, s: Seq<char>) -> bool {
    exists|i: int| 0 <= i <= s.len() - w.len() && #[trigger] s.subrange(i, i + w.len()) == w
}

/// Whether `w` occurs at position `at` of `s`.
fn occurs_at(s: &Vec<char>, w: &Vec<char>, at: usize) -> (r: bool)
    requires
        at + w@.len() <= s@.len(),
    ensures
        r == (s@.subrange(at as int, at + w@.len()) == w@),
{
    let mut j: usize = 0;
    while j < w.len()
        invariant
            at + w.len() <= s.len(),
            j <= w@.len(),
            forall|k: int| 0 <= k < j ==> s@[at + k] == w@[k],
        decreases w@.len() - j,
    {
        if s[at + j] != w[j] {
            assert(s@.subrange(at as int, at + w@.len())[j as int] != w@[j as int]);
            return false;
        }
        j = j + 1;
    }
    assert(s@.subrange(at as int, at + w@.len()) =~= w@);
    true
}

/// Whether `w` occurs in `s`.
pub fn contains_chars(s: &Vec<char>, w: &Vec<char>) -> (r: bool)
    ensures
        r == occurs_in(w@, s@),
{
    if w.len() > s.len() {
        return false;
    }
    let last = s.len() - w.len();
    let mut at: usize = 0;
    loop
        invariant
            last == s@.len() - w@.len(),
            at <= last,
            forall|i: int| 0 <= i < at ==> #[trigger] s@.subrange(i, i + w@.len()) != w@,
        decreases last - at,
    {
        if occurs_at(s, w, at) {
            return true;
        }
        if at == last {
            return false;
        }
        at = at + 1;
    }
}

} // verus!
