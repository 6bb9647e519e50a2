//! Conversions between strings and the character sequences that the rest of
//! the library computes on.
use vstd::prelude::*;
use vstd::string::axiom_spec_iter;

verus! {

/// `String::push` appends one character: std documents it as "Appends the
/// given char to the end of this String". Its allocation failure (an abort)
/// is not modelled.
pub assume_specification[ String::push ](s: &mut String, ch: char)
    ensures
        final(s)@ == old(s)@.push(ch),
;

/// The characters of `s`, in order.
pub fn chars_of(s: &str) -> (r: Vec<char>)
    ensures
        r@ == s@,
{
    let mut out: Vec<char> = Vec::new();
    for c in it: s.chars()
        invariant
            out@ == it.seq().subrange(0, it.index() as int),
    {
        out.push(c);
    }
    proof {
        axiom_spec_iter(s);
    }
    out
}

/// The string made of the characters of `cs`, in order.
pub fn string_of(cs: &[char]) -> (r: String)
    ensures
        r@ == cs@,
{
    let mut out = String::new();
    let mut i: usize = 0;
    while i < cs.len()
        invariant
            i <= cs@.len(),
            out@ == cs@.subrange(0, i as int),
        decreases cs@.len() - i,
    {
        out.push(cs[i]);
        i = i + 1;
        assert(out@ =~= cs@.subrange(0, i as int));
    }
    assert(cs@.subrange(0, i as int) =~= cs@);
    out
}

/// The pieces of `s` between separator characters, in order, as
/// `str::split` yields them: always at least one piece, empty pieces kept.
pub open spec fn pieces(s: Seq<char>, is_sep: spec_fn(char) -> bool) -> Seq<Seq<char>>
    decreases s.len(),
{
    if s.len() == 0 {
        seq![Seq::empty()]
    } else {
        let prev = pieces(s.drop_last(), is_sep);
        if is_sep(s.last()) {
            prev.push(Seq::empty())
        } else {
            prev.update(prev.len() - 1, prev.last().push(s.last()))
        }
    }
}

/// The character sequences held by a vector of character vectors.
pub open spec fn texts(v: Seq<Vec<char>>) -> Seq<Seq<char>> {
    Seq::new(v.len(), |i: int| v[i]@)
}

/// The separator test for a single character.
pub open spec fn is_char(sep: char) -> spec_fn(char) -> bool {
    |c: char| c == sep
}

/// `char::is_whitespace`: the Unicode `White_Space` property.
pub open spec fn is_whitespace(c: char) -> bool {
    ||| '\u{9}' <= c <= '\u{d}'
    ||| c == ' '
    ||| c == '\u{85}'
    ||| c == '\u{a0}'
    ||| c == '\u{1680}'
    ||| '\u{2000}' <= c <= '\u{200a}'
    ||| c == '\u{2028}'
    ||| c == '\u{2029}'
    ||| c == '\u{202f}'
    ||| c == '\u{205f}'
    ||| c == '\u{3000}'
}

/// The whitespace separator test.
pub open spec fn is_ws() -> spec_fn(char) -> bool {
    |c: char| is_whitespace(c)
}

pub proof fn lemma_pieces_nonempty(s: Seq<char>, is_sep: spec_fn(char) -> bool)
    ensures
        pieces(s, is_sep).len() >= 1,
    decreases s.len(),
{
    if s.len() > 0 {
        lemma_pieces_nonempty(s.drop_last(), is_sep);
    }
}

/// Executable `char::is_whitespace`.
pub fn char_is_whitespace(c: char) -> (r: bool)
    ensures
        r == is_whitespace(c),
{
    ('\u{9}' <= c && c <= '\u{d}') || c == ' ' || c == '\u{85}' || c == '\u{a0}' || c
        == '\u{1680}' || ('\u{2000}' <= c && c <= '\u{200a}') || c == '\u{2028}' || c
        == '\u{2029}' || c == '\u{202f}' || c == '\u{205f}' || c == '\u{3000}'
}

/// Splits `s` at every occurrence of `sep` (when `on_whitespace` is false) or
/// at every whitespace character (when it is true).
fn split_impl(s: &[char], sep: char, on_whitespace: bool) -> (r: Vec<Vec<char>>)
    ensures
        texts(r@) == pieces(s@, if on_whitespace { is_ws() } else { is_char(sep) }),
{
    let ghost f = if on_whitespace { is_ws() } else { is_char(sep) };
    let mut done: Vec<Vec<char>> = Vec::new();
    let mut cur: Vec<char> = Vec::new();
    let mut i: usize = 0;
    while i < s.len()
        invariant
            i <= s@.len(),
            f == (if on_whitespace { is_ws() } else { is_char(sep) }),
            pieces(s@.subrange(0, i as int), f) == texts(done@).push(cur@),
        decreases s@.len() - i,
    {
        let c = s[i];
        let hit = if on_whitespace { char_is_whitespace(c) } else { c == sep };
        proof {
            let t = s@.subrange(0, i + 1);
            assert(t.drop_last() =~= s@.subrange(0, i as int));
            assert(t.last() == c);
            assert(hit == f(c));
        }
        if hit {
            let ghost old_done = texts(done@);
            let piece = cur;
            done.push(piece);
            cur = Vec::new();
            proof {
                assert(texts(done@) =~= old_done.push(piece@));
                assert(texts(done@).push(cur@) =~= old_done.push(piece@).push(Seq::empty()));
            }
        } else {
            let ghost old_cur = cur@;
            cur.push(c);
            proof {
                assert(texts(done@).push(cur@) =~= texts(done@).push(old_cur).update(
                    texts(done@).len() as int,
                    old_cur.push(c),
                ));
            }
        }
        i = i + 1;
    }
    let ghost old_done = texts(done@);
    done.push(cur);
    proof {
        assert(s@.subrange(0, i as int) =~= s@);
        assert(texts(done@) =~= old_done.push(cur@));
    }
    done
}

/// `str::split` on one character.
pub fn split_on_char(s: &[char], sep: char) -> (r: Vec<Vec<char>>)
    ensures
        texts(r@) == pieces(s@, is_char(sep)),
{
    split_impl(s, sep, false)
}

/// The pieces of `s` between whitespace characters, empty pieces included.
pub fn split_on_whitespace(s: &[char]) -> (r: Vec<Vec<char>>)
    ensures
        texts(r@) == pieces(s@, is_ws()),
{
    split_impl(s, ' ', true)
}

/// The character sequences held by a vector of strings.
pub open spec fn strs(v: Seq<String>) -> Seq<Seq<char>> {
    Seq::new(v.len(), |i: int| v[i]@)
}

/// The nonempty pieces among `ps`, in order.
pub open spec fn nonempty(ps: Seq<Seq<char>>) -> Seq<Seq<char>> {
    ps.filter(|w: Seq<char>| w.len() > 0)
}

/// Strings made of the pieces `ps` that are nonempty, in order.
pub fn nonempty_strings(ps: &Vec<Vec<char>>) -> (r: Vec<String>)
    ensures
        strs(r@) == nonempty(texts(ps@)),
{
    let mut out: Vec<String> = Vec::new();
    let mut i: usize = 0;
    while i < ps.len()
        invariant
            i <= ps@.len(),
            strs(out@) == nonempty(texts(ps@).take(i as int)),
        decreases ps@.len() - i,
    {
        let ghost pre = texts(ps@).take(i as int);
        let ghost next = texts(ps@).take(i + 1);
        proof {
            assert(next.drop_last() =~= pre);
            assert(next.last() == ps@[i as int]@);
            reveal(Seq::filter);
        }
        if ps[i].len() > 0 {
            let ghost old_out = strs(out@);
            out.push(string_of(ps[i].as_slice()));
            proof {
                assert(strs(out@) =~= old_out.push(ps@[i as int]@));
            }
        }
        i = i + 1;
    }
    proof {
        assert(texts(ps@).take(i as int) =~= texts(ps@));
    }
    out
}

} // verus!
