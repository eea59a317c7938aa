//! Decisions taken from the command line before any work starts.

use vstd::prelude::*;

verus! {

/// Where the settings of a run come from.
#[derive(PartialEq, Eq, Structural, Clone, Copy, Debug)]
pub enum InputSource {
    /// The input directory was given on the command line.
    Given,
    /// Other arguments (or the confirmation flag) were given: the current
    /// directory is the input.
    CurrentDir,
    /// No argument at all: the settings are asked for interactively.
    Interactive,
}

/// Where the settings come from: a given input directory wins; otherwise any
/// argument, or the confirmation flag, selects the current directory;
/// a bare start asks interactively.
pub fn input_source(input_given: bool, has_any_cli_args: bool, yes: bool) -> (r: InputSource)
    ensures
        r == (if input_given {
            InputSource::Given
        } else if has_any_cli_args || yes {
            InputSource::CurrentDir
        } else {
            InputSource::Interactive
        }),
{
    if input_given {
        InputSource::Given
    } else if has_any_cli_args || yes {
        InputSource::CurrentDir
    } else {
        InputSource::Interactive
    }
}

/// A WebP quality brought into 1..=100.
pub open spec fn clamp_quality(q: u8) -> u8 {
    if q < 1 {
        1
    } else if q > 100 {
        100
    } else {
        q
    }
}

/// A WebP quality (from the command line or the interactive setup),
/// brought into 1..=100.
pub fn effective_quality(q: u8) -> (r: u8)
    ensures
        1 <= r <= 100,
        r == clamp_quality(q),
{
    if q < 1 {
        1
    } else if q > 100 {
        100
    } else {
        q
    }
}

/// Whether cleanup was asked for while conversion is off, so that it can
/// remove nothing (the user is warned).
pub fn cleanup_is_inert(cleanup: bool, skip_webp: bool) -> (r: bool)
    ensures
        r == (cleanup && skip_webp),
{
    cleanup && skip_webp
}

} // verus!
