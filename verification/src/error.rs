//! Errors that the library reports.
use crate::size::{decimal, push_decimal, push_text};
use vstd::prelude::*;

verus! {

/// Why an operation of the library was refused.
#[derive(Clone, Copy, Debug, PartialEq, Eq, Structural)]
pub enum BonkError {
    /// The image name to export was empty.
    EmptyImageName,
    /// The output binary name came out empty.
    EmptyOutputName,
    /// The exported image list did not hold exactly one image (the count found).
    ManifestImageCount(usize),
    /// The executable is shorter than a footer.
    BinaryTooSmall,
    /// The executable does not end with the footer magic.
    NotBonkBinary,
    /// A section that the footer records lies (partly) outside the executable.
    SectionOutOfRange,
    /// The rootfs is a read-only mount but bwrap cannot lay an overlay on it.
    OverlayUnsupported,
    /// A layer file is shorter than the two bytes that identify its format.
    LayerTooShort,
}

/// The text a user is shown for an error.
pub open spec fn message_spec(e: BonkError) -> Seq<char> {
    match e {
        BonkError::EmptyImageName => "image name must not be empty"@,
        BonkError::EmptyOutputName => "output binary name cannot be empty"@,
        BonkError::ManifestImageCount(n) => "expected exactly 1 image in the image manifest, found "@
            + decimal(n as nat),
        BonkError::BinaryTooSmall => "binary too small to contain bonk footer"@,
        BonkError::NotBonkBinary => "not a bonk binary — footer magic does not match"@,
        BonkError::SectionOutOfRange => "corrupt bonk binary — the footer points outside the binary"@,
        BonkError::OverlayUnsupported => "the rootfs is a read-only squashfs mount, but bwrap does not support overlay mode"@,
        BonkError::LayerTooShort => "failed to read layer file"@,
    }
}

impl BonkError {
    /// The text a user is shown for this error.
    pub fn message(&self) -> (r: String)
        ensures
            r@ == message_spec(*self),
    {
        let mut out = String::new();
        match self {
            BonkError::EmptyImageName => push_text(&mut out, "image name must not be empty"),
            BonkError::EmptyOutputName => push_text(&mut out, "output binary name cannot be empty"),
            BonkError::ManifestImageCount(n) => {
                push_text(&mut out, "expected exactly 1 image in the image manifest, found ");
                push_decimal(&mut out, *n as u128);
            },
            BonkError::BinaryTooSmall => push_text(&mut out, "binary too small to contain bonk footer"),
            BonkError::NotBonkBinary => push_text(
                &mut out,
                "not a bonk binary — footer magic does not match",
            ),
            BonkError::SectionOutOfRange => push_text(
                &mut out,
                "corrupt bonk binary — the footer points outside the binary",
            ),
            BonkError::OverlayUnsupported => push_text(
                &mut out,
                "the rootfs is a read-only squashfs mount, but bwrap does not support overlay mode",
            ),
            BonkError::LayerTooShort => push_text(&mut out, "failed to read layer file"),
        }
        assert(out@ =~= message_spec(*self));
        out
    }
}

} // verus!
