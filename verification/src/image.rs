//! Exporting an image: the docker command line and the export directory.
use crate::error::BonkError;
use crate::path::{components, dot, dotdot, is_plain_name, join_path, lemma_push_plain_name, push_path, PathComp};
use crate::text::string_of;
use crate::text::{chars_of, is_ws, nonempty, nonempty_strings, pieces, split_on_whitespace, strs};
use vstd::prelude::*;

verus! {

/// The program that `docker save` runs through when nothing else is named.
pub open spec fn default_docker() -> Seq<char> {
    seq!['d', 'o', 'c', 'k', 'e', 'r']
}

/// The whitespace-separated words of `s`.
pub open spec fn words(s: Seq<char>) -> Seq<Seq<char>> {
    nonempty(pieces(s, is_ws()))
}

/// Parses the `DOCKER` environment variable into a program name and prefix
/// args: the first word is the program, the rest are prefix args. Falls back
/// to `"docker"` with no prefix args if there is no word.
pub fn parse_docker_cmd(docker_cmd: &str) -> (r: (String, Vec<String>))
    ensures
        words(docker_cmd@).len() == 0 ==> r.0@ == default_docker() && r.1@.len() == 0,
        words(docker_cmd@).len() > 0 ==> r.0@ == words(docker_cmd@)[0] && strs(r.1@)
            == words(docker_cmd@).skip(1),
{
    let cs = chars_of(docker_cmd);
    let ps = split_on_whitespace(cs.as_slice());
    let mut ws = nonempty_strings(&ps);
    if ws.len() == 0 {
        let mut program = String::new();
        program.push('d');
        program.push('o');
        program.push('c');
        program.push('k');
        program.push('e');
        program.push('r');
        proof {
            assert(program@ =~= default_docker());
        }
        (program, ws)
    } else {
        let ghost all = strs(ws@);
        let program = ws.remove(0);
        proof {
            assert(strs(ws@) =~= all.skip(1));
        }
        (program, ws)
    }
}

/// The directory name an image is exported to: the image reference with
/// each `/` and `:` replaced by `_`.
pub open spec fn export_dir_name(image: Seq<char>) -> Seq<char> {
    image.map_values(|c: char| if c == '/' || c == ':' { '_' } else { c })
}

/// The directory in `workdir` that `image` is exported to:
/// `alpine:latest` in `/tmp/work` is `/tmp/work/alpine_latest`. An empty
/// image name is refused.
pub fn get_export_image_path(image: &str, workdir: &str) -> (r: Result<String, BonkError>)
    requires
        workdir@.len() + image@.len() + 1 <= usize::MAX,
    ensures
        image@.len() == 0 ==> r == Err::<String, BonkError>(BonkError::EmptyImageName),
        image@.len() > 0 ==> (r matches Ok(p) && p@ == push_path(
            workdir@,
            export_dir_name(image@),
        )),
{
    let cs = chars_of(image);
    if cs.len() == 0 {
        return Err(BonkError::EmptyImageName);
    }
    let mut name: Vec<char> = Vec::new();
    let mut i: usize = 0;
    while i < cs.len()
        invariant
            i <= cs@.len(),
            name@ == export_dir_name(cs@.take(i as int)),
        decreases cs@.len() - i,
    {
        let c = cs[i];
        name.push(if c == '/' || c == ':' { '_' } else { c });
        i = i + 1;
        assert(name@ =~= export_dir_name(cs@.take(i as int)));
    }
    assert(cs@.take(i as int) =~= cs@);
    let w = chars_of(workdir);
    let p = join_path(w.as_slice(), name.as_slice());
    Ok(string_of(p.as_slice()))
}

/// The command that exports `image` to the tarball `output`: the program
/// named by `docker_cmd` (see [`parse_docker_cmd`]), its prefix args, then
/// `save -o <output> <image>`.
pub fn docker_save_command(docker_cmd: &str, output: &str, image: &str) -> (r: (
    String,
    Vec<String>,
))
    ensures
        words(docker_cmd@).len() == 0 ==> r.0@ == default_docker(),
        words(docker_cmd@).len() > 0 ==> r.0@ == words(docker_cmd@)[0],
        strs(r.1@) == (if words(docker_cmd@).len() > 0 {
            words(docker_cmd@).skip(1)
        } else {
            Seq::empty()
        }) + seq!["save"@, "-o"@, output@, image@],
{
    let (program, mut args) = parse_docker_cmd(docker_cmd);
    let ghost prefix = strs(args@);
    args.push("save".to_owned());
    args.push("-o".to_owned());
    args.push(output.to_owned());
    args.push(image.to_owned());
    proof {
        assert(strs(args@) =~= prefix + seq!["save"@, "-o"@, output@, image@]);
        if words(docker_cmd@).len() == 0 {
            assert(prefix =~= Seq::<Seq<char>>::empty());
        }
    }
    (program, args)
}

/// An image is exported into a directory of its own directly inside the
/// work directory (unless its whole name is `.` or `..`, which name the work
/// directory itself or its parent): the export path's components are those
/// of the work directory and one name more.
pub proof fn lemma_export_dir_is_child(image: Seq<char>, workdir: Seq<char>)
    requires
        image.len() > 0,
        export_dir_name(image) != dot(),
        export_dir_name(image) != dotdot(),
    ensures
        components(push_path(workdir, export_dir_name(image))) == components(workdir).push(
            PathComp::Normal(export_dir_name(image)),
        ),
{
    let n = export_dir_name(image);
    assert forall|i: int| 0 <= i < n.len() implies n[i] != '/' by {
        assert(n[i] == (if image[i] == '/' || image[i] == ':' { '_' } else { image[i] }));
    }
    assert(is_plain_name(n));
    lemma_push_plain_name(workdir, n);
}

} // verus!
