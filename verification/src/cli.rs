//! The command line of the packing tool and the output name it derives.
use crate::error::BonkError;
use crate::text::{chars_of, is_char, lemma_pieces_nonempty, pieces, split_on_char, string_of};
use vstd::prelude::*;

verus! {

/// The name of the binary built from `image`: the last `/`-separated part,
/// up to its first `:`.
pub open spec fn binary_name(image: Seq<char>) -> Seq<char> {
    pieces(pieces(image, is_char('/')).last(), is_char(':'))[0]
}

/// Arguments of the packing tool.
pub struct Cli {
    /// Docker image to pack (e.g. alpine:latest, ubuntu:22.04, myrepo/myimage:1.0)
    pub image: String,
    /// Output binary path [default: ./<image-name>]
    pub output: Option<String>,
    /// Path to a static bwrap binary to embed [default: search PATH]
    pub bwrap_path: Option<String>,
    /// Path to a static unsquashfs binary to embed [default: search PATH]
    pub unsquashfs_path: Option<String>,
    /// Suppress progress output
    pub quiet: bool,
}

/// Derives the output binary name from an image reference:
/// `myrepo/myimage:1.0` gives `myimage`.
pub fn extract_binary_name(image: &str) -> (r: Result<String, BonkError>)
    ensures
        r is Ok,
        r->Ok_0@ == binary_name(image@),
{
    let cs = chars_of(image);
    let parts = split_on_char(cs.as_slice(), '/');
    proof {
        lemma_pieces_nonempty(cs@, is_char('/'));
    }
    let last = &parts[parts.len() - 1];
    let name_parts = split_on_char(last.as_slice(), ':');
    proof {
        lemma_pieces_nonempty(last@, is_char(':'));
    }
    Ok(string_of(name_parts[0].as_slice()))
}

/// The output name that packing writes to: the explicit output if one was
/// given, else the name derived from the image.
pub open spec fn chosen_output(image: Seq<char>, output: Option<Seq<char>>) -> Seq<char> {
    match output {
        Some(o) => o,
        None => binary_name(image),
    }
}

impl Cli {
    /// The output binary path; an empty name is refused.
    pub fn output_name(&self) -> (r: Result<String, BonkError>)
        ensures
            ({
                let name = chosen_output(
                    self.image@,
                    match self.output {
                        Some(o) => Some(o@),
                        None => None,
                    },
                );
                match r {
                    Ok(s) => s@ == name && name.len() > 0,
                    Err(e) => e == BonkError::EmptyOutputName && name.len() == 0,
                }
            }),
    {
        let output = match &self.output {
            Some(o) => o.clone(),
            None => {
                let r = extract_binary_name(self.image.as_str());
                match r {
                    Ok(n) => n,
                    Err(e) => return Err(e),
                }
            },
        };
        if output.as_str().is_empty() {
            return Err(BonkError::EmptyOutputName);
        }
        Ok(output)
    }
}

} // verus!
