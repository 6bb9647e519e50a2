//! Reading the kernel's mount table (`/proc/mounts`).
use crate::path::chars_eq;
use crate::text::{chars_of, is_char, lemma_pieces_nonempty, pieces, split_on_char, texts};
use vstd::prelude::*;

verus! {

/// `str::lines`: the text split at each `\n`, a `\r` right before a `\n`
/// removed, and no last line after a final line ending. A `\r` at the very
/// end of the text stays in the last line.
pub open spec fn text_lines(data: Seq<char>) -> Seq<Seq<char>> {
    let ps = pieces(data, is_char('\n'));
    let body = if ps.last().len() == 0 {
        ps.drop_last()
    } else {
        ps
    };
    Seq::new(
        body.len(),
        |i: int|
            if i < ps.len() - 1 && body[i].len() > 0 && body[i].last() == '\r' {
                body[i].drop_last()
            } else {
                body[i]
            },
    )
}

/// Field `k` of a mount table line (fields are separated by single spaces),
/// or the empty text if the line has no such field.
pub open spec fn mount_field(line: Seq<char>, k: int) -> Seq<char> {
    let fs = pieces(line, is_char(' '));
    if k < fs.len() {
        fs[k]
    } else {
        Seq::empty()
    }
}

/// Whether a line of the mount table mounts a squashfs at `path`.
pub open spec fn is_squashfs_line(line: Seq<char>, path: Seq<char>) -> bool {
    mount_field(line, 1) == path && mount_field(line, 2) == "squashfs"@
}

/// Field `k` of a line.
fn field_exec(line: &[char], k: usize) -> (r: Vec<char>)
    ensures
        r@ == mount_field(line@, k as int),
{
    let fs = split_on_char(line, ' ');
    if k < fs.len() {
        vstd::slice::slice_to_vec(fs[k].as_slice())
    } else {
        Vec::new()
    }
}

/// Whether `mounts`, the content of `/proc/mounts`, lists a squashfs mounted
/// at `path`.
pub fn is_squashfs_mounted(mounts: &str, path: &str) -> (r: bool)
    ensures
        r == exists|i: int|
            0 <= i < text_lines(mounts@).len() && is_squashfs_line(
                #[trigger] text_lines(mounts@)[i],
                path@,
            ),
{
    let data = chars_of(mounts);
    let want = chars_of(path);
    let sq = chars_of("squashfs");
    let ps = split_on_char(data.as_slice(), '\n');
    proof {
        lemma_pieces_nonempty(data@, is_char('\n'));
    }
    let ghost lines = text_lines(mounts@);
    let count = if ps[ps.len() - 1].len() == 0 {
        ps.len() - 1
    } else {
        ps.len()
    };
    assert(count == lines.len());
    let mut i: usize = 0;
    while i < count
        invariant
            i <= count,
            count == lines.len(),
            lines == text_lines(mounts@),
            texts(ps@) == pieces(mounts@, is_char('\n')),
            data@ == mounts@,
            want@ == path@,
            sq@ == "squashfs"@,
            count <= ps@.len(),
            forall|j: int| 0 <= j < i ==> !is_squashfs_line(#[trigger] lines[j], path@),
        decreases count - i,
    {
        let piece = ps[i].as_slice();
        let line: &[char] = if i + 1 < ps.len() && piece.len() > 0 && piece[piece.len() - 1]
            == '\r' {
            vstd::slice::slice_subrange(piece, 0, piece.len() - 1)
        } else {
            piece
        };
        proof {
            assert(line@ =~= lines[i as int]);
        }
        let mp = field_exec(line, 1);
        let fs = field_exec(line, 2);
        if chars_eq(mp.as_slice(), want.as_slice()) && chars_eq(fs.as_slice(), sq.as_slice()) {
            assert(is_squashfs_line(lines[i as int], path@));
            return true;
        }
        i = i + 1;
    }
    false
}

} // verus!
