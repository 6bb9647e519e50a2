//! Where the packing tool looks for the binaries it embeds.
use crate::path::{join_str, push_path};
use crate::size::push_text;
use crate::text::strs;
use vstd::prelude::*;

verus! {

/// The places a tool binary named `name` is looked for, in order, before
/// the system `PATH`: `<BONK_TOOLS_DIR>/<name>` when that variable is set;
/// then, when the packing tool's own directory is known, `<dir>/<name>`,
/// `<dir>/tools/<arch>/<name>` and `<dir>/tools/<name>`.
pub open spec fn tool_candidates_spec(
    name: Seq<char>,
    tools_dir: Option<Seq<char>>,
    exe_dir: Option<Seq<char>>,
    arch: Seq<char>,
) -> Seq<Seq<char>> {
    (match tools_dir {
        Some(d) => seq![push_path(d, name)],
        None => Seq::empty(),
    }) + match exe_dir {
        Some(d) => seq![
            push_path(d, name),
            push_path(push_path(push_path(d, "tools"@), arch), name),
            push_path(push_path(d, "tools"@), name),
        ],
        None => Seq::empty(),
    }
}

/// The candidate paths of a tool, in search order (see
/// [`tool_candidates_spec`]).
pub fn tool_candidates(name: &str, tools_dir: Option<&str>, exe_dir: Option<&str>, arch: &str) -> (r:
    Vec<String>)
    requires
        tools_dir matches Some(d) ==> d@.len() + name@.len() + 1 <= usize::MAX,
        exe_dir matches Some(d) ==> d@.len() + arch@.len() + name@.len() + 9 <= usize::MAX,
    ensures
        strs(r@) == tool_candidates_spec(
            name@,
            match tools_dir {
                Some(d) => Some(d@),
                None => None,
            },
            match exe_dir {
                Some(d) => Some(d@),
                None => None,
            },
            arch@,
        ),
{
    let mut out: Vec<String> = Vec::new();
    proof {
        reveal_strlit("tools");
    }
    match tools_dir {
        Some(d) => {
            out.push(join_str(d, name));
        },
        None => {},
    }
    let ghost a = strs(out@);
    match exe_dir {
        Some(d) => {
            out.push(join_str(d, name));
            let tools = join_str(d, "tools");
            let tools_arch = join_str(tools.as_str(), arch);
            out.push(join_str(tools_arch.as_str(), name));
            out.push(join_str(tools.as_str(), name));
        },
        None => {},
    }
    proof {
        let ed = match exe_dir {
            Some(d) => Some(d@),
            None => None,
        };
        let tail = match ed {
            Some(d) => seq![
                push_path(d, name@),
                push_path(push_path(push_path(d, "tools"@), arch@), name@),
                push_path(push_path(d, "tools"@), name@),
            ],
            None => Seq::<Seq<char>>::empty(),
        };
        assert(strs(out@) =~= a + tail);
    }
    out
}

/// The path that names the runner binary to embed before any search: the
/// explicit path if one is given, else the `BONK_RUNNER` environment
/// variable if it is set.
pub open spec fn runner_path_spec(
    override_path: Option<Seq<char>>,
    bonk_runner: Option<Seq<char>>,
) -> Option<Seq<char>> {
    match override_path {
        Some(p) => Some(p),
        None => bonk_runner,
    }
}

/// The path of the runner binary when one is named (see
/// [`runner_path_spec`]); with none, the runner is searched for as any other
/// tool (see [`tool_candidates`]).
pub fn runner_path(override_path: Option<&str>, bonk_runner: Option<&str>) -> (r: Option<String>)
    ensures
        match r {
            Some(p) => runner_path_spec(
                match override_path {
                    Some(o) => Some(o@),
                    None => None,
                },
                match bonk_runner {
                    Some(b) => Some(b@),
                    None => None,
                },
            ) == Some(p@),
            None => override_path is None && bonk_runner is None,
        },
{
    match override_path {
        Some(p) => Some(p.to_owned()),
        None => match bonk_runner {
            Some(b) => Some(b.to_owned()),
            None => None,
        },
    }
}

/// The error text when an explicit tool path (`--<name>-path`) names no file.
pub fn override_missing_message(name: &str, path: &str) -> (r: String)
    ensures
        r@ == "--"@ + name@ + "-path: file not found: "@ + path@,
{
    let mut out = String::new();
    push_text(&mut out, "--");
    push_text(&mut out, name);
    push_text(&mut out, "-path: file not found: ");
    push_text(&mut out, path);
    assert(out@ =~= "--"@ + name@ + "-path: file not found: "@ + path@);
    out
}

/// The error text when a tool is found nowhere: it names `BONK_TOOLS_DIR`,
/// the `tools/<arch>/<name>` place next to the binary, and `PATH`.
pub fn tool_not_found_message(name: &str, arch: &str) -> (r: String)
    ensures
        r@ == name@ + " not found.\nSet BONK_TOOLS_DIR=/path/to/dir, place it at tools/"@ + arch@
            + "/"@ + name@ + "\nnext to the bonk binary, or ensure it is on PATH."@,
{
    let mut out = String::new();
    push_text(&mut out, name);
    push_text(&mut out, " not found.\nSet BONK_TOOLS_DIR=/path/to/dir, place it at tools/");
    push_text(&mut out, arch);
    push_text(&mut out, "/");
    push_text(&mut out, name);
    push_text(&mut out, "\nnext to the bonk binary, or ensure it is on PATH.");
    assert(out@ =~= name@ + " not found.\nSet BONK_TOOLS_DIR=/path/to/dir, place it at tools/"@
        + arch@ + "/"@ + name@ + "\nnext to the bonk binary, or ensure it is on PATH."@);
    out
}


/// The search order of the tool candidates: `<BONK_TOOLS_DIR>/<name>` first
/// when that variable is set; and whenever the packing tool's directory `d`
/// is known, whether or not `BONK_TOOLS_DIR` is set, the list ends with
/// `d/<name>`, `d/tools/<arch>/<name>` and `d/tools/<name>`, in that order.
/// What comes from `d` is the same list with or without `BONK_TOOLS_DIR`.
pub proof fn lemma_tool_candidates_order(
    name: Seq<char>,
    tools_dir: Option<Seq<char>>,
    exe_dir: Option<Seq<char>>,
    arch: Seq<char>,
)
    ensures
        ({
            let c = tool_candidates_spec(name, tools_dir, exe_dir, arch);
            let t: int = if tools_dir is Some {
                1
            } else {
                0
            };
            &&& c.len() == t + if exe_dir is Some {
                3int
            } else {
                0int
            }
            &&& tools_dir matches Some(td) ==> c[0] == push_path(td, name)
            &&& exe_dir matches Some(d) ==> {
                &&& c[t] == push_path(d, name)
                &&& c[t + 1] == push_path(push_path(push_path(d, "tools"@), arch), name)
                &&& c[t + 2] == push_path(push_path(d, "tools"@), name)
            }
            &&& c.skip(t) == tool_candidates_spec(name, None, exe_dir, arch)
        }),
{
    let c = tool_candidates_spec(name, tools_dir, exe_dir, arch);
    let t: int = if tools_dir is Some {
        1
    } else {
        0
    };
    assert(c.skip(t) =~= tool_candidates_spec(name, None, exe_dir, arch));
}

} // verus!
