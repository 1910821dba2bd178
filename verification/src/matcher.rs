//! The boundary to the pattern-matching engine.
//!
//! Matching is the work of the `regex` crate. What it returns is copied into a [`CaptureSet`] of
//! plain texts, and everything after that is verified against the capture set alone.

use crate::captures::{CaptureSet, Group, GroupView};
use regex::Regex;
use vstd::prelude::*;

verus! {

/// A compiled pattern of the `regex` crate. Its inside is hidden from the verifier.
#[verifier::external_type_specification]
#[verifier::external_body]
pub struct ExRegex(Regex);

/// The name of every capture group of a pattern, by group index: `None` for a group without a
/// name, as the whole-match group at index 0 always is.
pub uninterp spec fn group_names(re: Regex) -> Seq<Option<Seq<char>>>;

/// What each capture group of a pattern captured in the leftmost match within a text, by group
/// index: `None` for a group that took no part in the match, and `None` for the whole where the
/// pattern matches nowhere in the text.
pub uninterp spec fn group_texts(re: Regex, text: Seq<char>) -> Option<Seq<Option<Seq<char>>>>;

/// Calls `Regex::capture_names` and copies each name it yields, in order.
///
/// Trusted: that the names are a function of the pattern.
#[verifier::external_body]
fn capture_names(re: &Regex) -> (names: Vec<Option<String>>)
    ensures
        names.deep_view() == group_names(*re),
{
    re.capture_names().map(|name| name.map(|n| n.to_string())).collect()
}

/// Calls `Regex::captures` and copies the text of each group that `Captures::iter` yields, in
/// order.
///
/// Trusted: that the texts are a function of the pattern and the text searched, and that a
/// match yields as many groups as the pattern has names, since the crate walks both by the
/// pattern's list of groups.
#[verifier::external_body]
fn captures(re: &Regex, text: &str) -> (texts: Option<Vec<Option<String>>>)
    ensures
        texts.deep_view() == group_texts(*re, text@),
        texts matches Some(found) ==> found.len() == group_names(*re).len(),
{
    re.captures(text).map(|found| found.iter().map(|m| m.map(|m| m.as_str().to_string())).collect())
}

/// The capture groups of the leftmost match of `re` within `text`, each with its name and its
/// text; `None` where the pattern matches nowhere in the text.
pub open spec fn match_groups(re: Regex, text: Seq<char>) -> Option<Seq<GroupView>> {
    match group_texts(re, text) {
        None => None,
        Some(texts) => Some(
            Seq::new(
                texts.len(),
                |i: int| GroupView { name: group_names(re)[i], text: texts[i] },
            ),
        ),
    }
}

/// Matches `regex` against `text` and gathers the capture groups of the leftmost match.
pub fn capture(regex: &Regex, text: &str) -> (set: Option<CaptureSet>)
    ensures
        match set {
            Some(found) => match_groups(*regex, text@) == Some(found@),
            None => match_groups(*regex, text@) is None,
        },
{
    let texts = match captures(regex, text) {
        None => {
            return None;
        },
        Some(texts) => texts,
    };
    let names = capture_names(regex);
    let ghost wanted = match_groups(*regex, text@).unwrap();
    let mut groups: Vec<Group> = Vec::new();
    let mut i: usize = 0;
    while i < texts.len()
        invariant
            0 <= i <= texts.len(),
            names.len() == texts.len(),
            names.deep_view() == group_names(*regex),
            group_texts(*regex, text@) == Some(texts.deep_view()),
            wanted == match_groups(*regex, text@).unwrap(),
            groups.deep_view() =~= wanted.take(i as int),
        decreases texts.len() - i,
    {
        let group = Group { name: names[i].clone(), text: texts[i].clone() };
        proof {
            assert(names.deep_view()[i as int] == names[i as int].deep_view());
            assert(texts.deep_view()[i as int] == texts[i as int].deep_view());
            assert(group.deep_view() == wanted[i as int]);
        }
        let ghost before = groups.deep_view();
        groups.push(group);
        proof {
            assert(groups.deep_view() =~= before.push(group.deep_view()));
            assert(wanted.take(i + 1) =~= wanted.take(i as int).push(wanted[i as int]));
        }
        i = i + 1;
    }
    proof {
        assert(wanted.take(i as int) =~= wanted);
    }
    Some(CaptureSet::new(groups))
}

} // verus!
