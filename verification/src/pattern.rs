//! Regular expressions, as the crate regex reads and applies them.

use vstd::prelude::*;

verus! {

/// Whether one of the patterns matches somewhere in the text; none where a
/// pattern is not a regular expression.
pub uninterp spec fn regex_set_match_of(patterns: Seq<Seq<char>>, text: Seq<char>) -> Option<bool>;

/// The text with every match of the pattern replaced; none where the
/// pattern is not a regular expression.
pub uninterp spec fn regex_replace_of(
    pattern: Seq<char>,
    text: Seq<char>,
    replacement: Seq<char>,
) -> Option<Seq<char>>;

/// The matches of the pattern in the text, from left to right, each with
/// what its groups caught, the whole match first; none where the pattern is
/// not a regular expression.
pub uninterp spec fn regex_captures_of(pattern: Seq<char>, text: Seq<char>) -> Option<
    Seq<Seq<Option<Seq<char>>>>,
>;

/// `RegexSet::new` and `RegexSet::is_match` of the crate regex: the set is
/// compiled from the patterns and asked whether any of them matches in the
/// text.
#[verifier::external_body]
pub(crate) fn set_matches(patterns: &Vec<String>, text: &str) -> (r: Option<bool>)
    ensures
        r == regex_set_match_of(patterns.deep_view(), text@),
{
    regex::RegexSet::new(patterns).ok().map(|set| set.is_match(text))
}

/// `Regex::new` and `Regex::replace_all` of the crate regex: the pattern is
/// compiled and every match of it in the text, none overlapping another, is
/// replaced as the replacement says.
#[verifier::external_body]
pub(crate) fn replace_matches(pattern: &str, text: &str, replacement: &str) -> (r: Option<String>)
    ensures
        r.deep_view() == regex_replace_of(pattern@, text@, replacement@),
{
    regex::Regex::new(pattern).ok().map(|re| re.replace_all(text, replacement).into_owned())
}

/// `Regex::new` and `Regex::captures_iter` of the crate regex: the pattern
/// is compiled and its matches in the text are listed, each with the text
/// of every group, where the group took part in the match.
#[verifier::external_body]
pub(crate) fn find_captures(pattern: &str, text: &str) -> (r: Option<Vec<Vec<Option<String>>>>)
    ensures
        r.deep_view() == regex_captures_of(pattern@, text@),
{
    regex::Regex::new(pattern).ok().map(
        |re|
            re.captures_iter(text).map(
                |found| found.iter().map(|group| group.map(|m| m.as_str().to_string())).collect(),
            ).collect(),
    )
}

/// What the group `group` caught in each match that has it.
pub open spec fn group_texts(matches: Seq<Seq<Option<Seq<char>>>>, group: int) -> Seq<Seq<char>>
    decreases matches.len(),
{
    if matches.len() == 0 {
        Seq::empty()
    } else {
        let rest = group_texts(matches.drop_last(), group);
        let last = matches.last();
        if 0 <= group < last.len() && last[group] is Some {
            rest.push(last[group]->0)
        } else {
            rest
        }
    }
}

/// Picks what one group caught out of a list of matches.
pub fn pick_group(matches: &Vec<Vec<Option<String>>>, group: usize) -> (texts: Vec<String>)
    ensures
        texts.deep_view() == group_texts(matches.deep_view(), group as int),
{
    let mut texts: Vec<String> = Vec::new();
    let n: usize = matches.len();
    let mut i: usize = 0;
    proof {
        assert(matches.deep_view().take(0) =~= Seq::empty());
        assert(texts.deep_view() =~= Seq::<Seq<char>>::empty());
    }
    while i < n
        invariant
            i <= n,
            n == matches@.len(),
            texts.deep_view() == group_texts(matches.deep_view().take(i as int), group as int),
        decreases n - i,
    {
        let found = &matches[i];
        let ghost before = texts.deep_view();
        proof {
            let all = matches.deep_view();
            assert(all.take(i + 1).drop_last() =~= all.take(i as int));
            assert(all.take(i + 1).last() == found.deep_view());
            assert(found.deep_view().len() == found@.len());
        }
        if group < found.len() {
            proof {
                assert(found.deep_view()[group as int] == found@[group as int].deep_view());
            }
            match &found[group] {
                Some(text) => {
                    texts.push(text.clone());
                    proof {
                        assert(texts.deep_view() =~= before.push(text@));
                    }
                },
                None => {},
            }
        }
        i += 1;
    }
    proof {
        assert(matches.deep_view().take(n as int) =~= matches.deep_view());
    }
    texts
}

} // verus!
