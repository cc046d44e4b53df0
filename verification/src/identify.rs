//! The size of an image as ImageMagick's `identify` reports it.
use vstd::prelude::*;
use vstd::utf8::*;
use vstd::string::*;
use regex::Regex;
use crate::text::{parse_usize, parse_usize_spec};

verus! {

/// The size of an image.
#[derive(Clone, Copy, Debug, PartialEq, Eq, Structural)]
pub struct ImageInfo {
    pub width: usize,
    pub height: usize,
}

/// Why the size could not be read from what `identify` printed.
#[derive(Clone, Copy, Debug, PartialEq, Eq, Structural)]
pub enum IdentifyError {
    /// Nothing of the form ` WIDTHxHEIGHT ` was found.
    NoMatch,
    /// The width or the height is not a number that fits in a `usize`.
    InvalidNumber,
}

/// Groups 1 and 2 of the leftmost match of the regular expression `pattern`
/// in `text`, as the `regex` crate finds them; `None` where `pattern` is not
/// a valid expression or does not match.
pub uninterp spec fn regex_two_groups(pattern: Seq<char>, text: Seq<char>) -> Option<(Option<Seq<char>>, Option<Seq<char>>)>;

/// Compiles `pattern` with `regex::Regex::new` and calls `Regex::captures`
/// on `text`; the result is groups 1 and 2 of the match, which the contract
/// gives only by name.
#[verifier::external_body]
fn regex_captures(pattern: &str, text: &str) -> (res: Option<(Option<String>, Option<String>)>)
    ensures
        groups_view(res) == regex_two_groups(pattern@, text@),
{
    let re = match Regex::new(pattern) {
        Ok(re) => re,
        Err(_) => return None,
    };
    match re.captures(text) {
        Some(c) => Some((c.get(1).map(|m| m.as_str().to_owned()), c.get(2).map(|m| m.as_str().to_owned()))),
        None => None,
    }
}

/// The text of two optional groups.
pub open spec fn groups_view(g: Option<(Option<String>, Option<String>)>) -> Option<(Option<Seq<char>>, Option<Seq<char>>)> {
    match g {
        None => None,
        Some((a, b)) => Some(
            (
                match a {
                    Some(s) => Some(s@),
                    None => None,
                },
                match b {
                    Some(s) => Some(s@),
                    None => None,
                },
            ),
        ),
    }
}

/// The expression that finds the size: a space, the width, `x`, the
/// height and a space.
pub open spec fn dimensions_pattern() -> Seq<char> {
    " (\\d+)x(\\d+) "@
}

/// The size that the two groups of the match spell.
pub open spec fn info_from_groups(g: Option<(Option<Seq<char>>, Option<Seq<char>>)>) -> Result<(usize, usize), IdentifyError> {
    match g {
        Some((Some(w), Some(h))) => match (parse_usize_spec(encode_utf8(w)), parse_usize_spec(encode_utf8(h))) {
            (Some(width), Some(height)) => Ok((width, height)),
            _ => Err(IdentifyError::InvalidNumber),
        },
        _ => Err(IdentifyError::NoMatch),
    }
}

/// Whether `res` is what `info_from_groups` gives.
pub open spec fn info_matches(res: Result<ImageInfo, IdentifyError>, expected: Result<(usize, usize), IdentifyError>) -> bool {
    match res {
        Ok(info) => expected == Ok::<(usize, usize), IdentifyError>((info.width, info.height)),
        Err(e) => expected == Err::<(usize, usize), IdentifyError>(e),
    }
}

/// The size that the groups of a match of `dimensions_pattern` spell.
pub fn image_info_from_groups(groups: Option<(Option<String>, Option<String>)>) -> (res: Result<ImageInfo, IdentifyError>)
    ensures
        info_matches(res, info_from_groups(groups_view(groups))),
{
    match groups {
        Some((Some(w), Some(h))) => {
            let width = parse_usize(w.as_str());
            let height = parse_usize(h.as_str());
            match (width, height) {
                (Some(width), Some(height)) => Ok(ImageInfo { width, height }),
                _ => Err(IdentifyError::InvalidNumber),
            }
        },
        _ => Err(IdentifyError::NoMatch),
    }
}

/// The size of an image from what `identify` printed about it: the first
/// ` WIDTHxHEIGHT ` in the text.
pub fn parse_identify(output: &str) -> (res: Result<ImageInfo, IdentifyError>)
    ensures
        info_matches(res, info_from_groups(regex_two_groups(dimensions_pattern(), output@))),
{
    let groups = regex_captures(" (\\d+)x(\\d+) ", output);
    image_info_from_groups(groups)
}

} // verus!
