use owo_colors::OwoColorize;
use vstd::prelude::*;
use vstd::string::{StrSliceExecFns, StringExecFns};

use crate::text::lex_le;

verus! {

/// The escape code that turns the foreground green.
pub open spec fn green_on() -> Seq<char> {
    seq!['\u{1b}', '[', '3', '2', 'm']
}

/// The escape code that turns the foreground back to the default.
pub open spec fn default_fg() -> Seq<char> {
    seq!['\u{1b}', '[', '3', '9', 'm']
}

/// Relies on owo_colors::OwoColorize::green and its `Display`: the text
/// written between `ESC[32m` and `ESC[39m`.
#[verifier::external_body]
fn paint_green(s: &str) -> (r: String)
    ensures
        r@ == green_on() + s@ + default_fg(),
{
    s.green().to_string()
}

/// `s` followed by as many `-` as it takes to reach `width` characters.
pub open spec fn pad_end(s: Seq<char>, width: nat) -> Seq<char> {
    if s.len() >= width {
        s
    } else {
        s + Seq::new((width - s.len()) as nat, |i: int| '-')
    }
}

/// As many `-` as it takes to reach `width` characters, followed by `s`.
pub open spec fn pad_start(s: Seq<char>, width: nat) -> Seq<char> {
    if s.len() >= width {
        s
    } else {
        Seq::new((width - s.len()) as nat, |i: int| '-') + s
    }
}

/// `count` dashes.
fn dashes(count: usize) -> (r: String)
    ensures
        r@ == Seq::new(count as nat, |i: int| '-'),
{
    let mut r = String::new();
    let mut i: usize = 0;
    while i < count
        invariant
            i <= count,
            r@ == Seq::new(i as nat, |j: int| '-'),
        decreases count - i,
    {
        r.append("-");
        proof {
            reveal_strlit("-");
        }
        assert(r@ =~= Seq::new((i + 1) as nat, |j: int| '-'));
        i = i + 1;
    }
    r
}

/// A file found on the search path: its name and its full path.
pub struct FoundPath {
    pub file: String,
    pub path: String,
}

/// The line that shows a found file: the name, green and padded with `-` to
/// eight characters, then `: `, then the path padded in front with `-` to
/// twenty characters.
pub open spec fn found_line(file: Seq<char>, path: Seq<char>) -> Seq<char> {
    green_on() + pad_end(file, 8) + default_fg() + seq![':', ' '] + pad_start(path, 20)
}

impl FoundPath {
    /// The line that shows this file (see `found_line`).
    pub fn render(&self) -> (r: String)
        ensures
            r@ == found_line(self.file@, self.path@),
    {
        let n = self.file.as_str().unicode_len();
        let mut name = String::from_str(self.file.as_str());
        if n < 8 {
            let pad = dashes(8 - n);
            name.append(pad.as_str());
        }
        let mut line = paint_green(name.as_str());
        line.append(": ");
        let m = self.path.as_str().unicode_len();
        if m < 20 {
            let pad = dashes(20 - m);
            line.append(pad.as_str());
        }
        line.append(self.path.as_str());
        proof {
            reveal_strlit(": ");
        }
        assert(line@ =~= found_line(self.file@, self.path@));
        line
    }
}

/// Whether `p` comes no later than `q`: by the first string, then by the
/// second.
pub open spec fn pair_le(p: (Seq<char>, Seq<char>), q: (Seq<char>, Seq<char>)) -> bool {
    if p.0 != q.0 {
        lex_le(p.0, q.0)
    } else {
        lex_le(p.1, q.1)
    }
}

/// The views of a sequence of string pairs.
pub open spec fn pair_views(s: Seq<(String, String)>) -> Seq<(Seq<char>, Seq<char>)> {
    s.map_values(|p: (String, String)| (p.0@, p.1@))
}

/// Whether `s` is in ascending order by `pair_le`.
pub open spec fn pairs_sorted(s: Seq<(Seq<char>, Seq<char>)>) -> bool {
    forall|a: int, b: int| 0 <= a < b < s.len() ==> pair_le(#[trigger] s[a], #[trigger] s[b])
}

/// Relies on slice::sort_unstable on `(String, String)`: tuples compare by
/// their first field, then their second, and strings compare by their UTF-8
/// bytes, which orders them as their characters' code points. The items are
/// kept, each as often.
#[verifier::external_body]
fn sort_pairs(v: &mut Vec<(String, String)>)
    ensures
        pair_views(final(v)@).to_multiset() == pair_views(old(v)@).to_multiset(),
        pairs_sorted(pair_views(final(v)@)),
{
    v.sort_unstable()
}

/// The found files, sorted by name and then by path.
pub fn sort_found_paths(found: &Vec<FoundPath>) -> (r: Vec<FoundPath>)
    ensures
        found_pairs(r@).to_multiset() == found_pairs(found@).to_multiset(),
        pairs_sorted(found_pairs(r@)),
{
    let mut pairs: Vec<(String, String)> = Vec::new();
    let mut i: usize = 0;
    while i < found.len()
        invariant
            i <= found@.len(),
            pair_views(pairs@) =~= found_pairs(found@.take(i as int)),
        decreases found@.len() - i,
    {
        let file = found[i].file.clone();
        let path = found[i].path.clone();
        let ghost before = pairs@;
        pairs.push((file, path));
        assert(pair_views(pairs@) =~= pair_views(before).push((found@[i as int].file@, found@[
            i as int].path@)));
        assert(found@.take(i + 1) =~= found@.take(i as int).push(found@[i as int]));
        i = i + 1;
    }
    assert(found@.take(i as int) =~= found@);
    sort_pairs(&mut pairs);
    let mut out: Vec<FoundPath> = Vec::new();
    let mut k: usize = 0;
    while k < pairs.len()
        invariant
            k <= pairs@.len(),
            found_pairs(out@) =~= pair_views(pairs@).take(k as int),
        decreases pairs@.len() - k,
    {
        let item = FoundPath { file: pairs[k].0.clone(), path: pairs[k].1.clone() };
        out.push(item);
        assert(pair_views(pairs@).take(k + 1) =~= pair_views(pairs@).take(k as int).push(
            pair_views(pairs@)[k as int],
        ));
        k = k + 1;
    }
    assert(pair_views(pairs@).take(k as int) =~= pair_views(pairs@));
    out
}

/// The name and path of each found file.
pub open spec fn found_pairs(s: Seq<FoundPath>) -> Seq<(Seq<char>, Seq<char>)> {
    s.map_values(|f: FoundPath| (f.file@, f.path@))
}

/// The lines of all found files, each followed by a newline.
pub open spec fn found_lines(s: Seq<FoundPath>) -> Seq<char>
    decreases s.len(),
{
    if s.len() == 0 {
        Seq::empty()
    } else {
        found_lines(s.drop_last()) + found_line(s.last().file@, s.last().path@) + seq!['\n']
    }
}

/// Renders every found file on its own line (see `found_line`).
pub fn render_found_paths(found: &Vec<FoundPath>) -> (r: String)
    ensures
        r@ == found_lines(found@),
{
    let mut out = String::new();
    let mut i: usize = 0;
    while i < found.len()
        invariant
            i <= found@.len(),
            out@ == found_lines(found@.take(i as int)),
        decreases found@.len() - i,
    {
        let line = found[i].render();
        out.append(line.as_str());
        out.append("\n");
        proof {
            reveal_strlit("\n");
            assert(found@.take(i + 1).drop_last() =~= found@.take(i as int));
        }
        i = i + 1;
    }
    assert(found@.take(i as int) =~= found@);
    out
}

} // verus!
