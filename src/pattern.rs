//! Regular expressions that rules match lines against.
use vstd::prelude::*;
use regex::Regex;

verus! {

#[verifier::external_type_specification]
#[verifier::external_body]
pub struct ExRegex(Regex);

#[verifier::external_type_specification]
#[verifier::external_body]
pub struct ExRegexError(regex::Error);

/// The capture groups of the leftmost match of `pattern` in `text`, if it
/// matches: group 0 is the whole match, a group that took no part is `None`.
pub uninterp spec fn regex_captures(pattern: Seq<char>, text: Seq<char>) -> Option<Seq<Option<Seq<char>>>>;

/// Whether `source` compiles to a regular expression.
pub uninterp spec fn regex_compiles(source: Seq<char>) -> bool;

/// A compiled regular expression together with its source.
pub struct Pattern {
    source: String,
    regex: Regex,
}

impl View for Pattern {
    type V = Seq<char>;

    closed spec fn view(&self) -> Seq<char> {
        self.source@
    }
}

/// Relies on `regex::Regex::new`: compiles `source`, or says why it cannot.
#[verifier::external_body]
fn compile_regex(source: &str) -> (r: Result<Pattern, regex::Error>)
    ensures
        r is Ok == regex_compiles(source@),
        r matches Ok(p) ==> p@ == source@,
{
    Regex::new(source).map(|regex| Pattern { source: source.to_string(), regex })
}

/// Relies on `regex::Regex::captures` and its iterator of groups: the groups
/// of the leftmost match, group 0 always being present.
#[verifier::external_body]
fn regex_groups(p: &Pattern, text: &str) -> (r: Option<Vec<Option<String>>>)
    ensures
        groups_view(r) == regex_captures(p@, text@),
        r matches Some(v) ==> v@.len() >= 1 && v@[0] is Some,
{
    p.regex.captures(text).map(|c| c.iter().map(|m| m.map(|m| m.as_str().to_string())).collect())
}

/// The views of a list of capture groups.
pub open spec fn groups_view(r: Option<Vec<Option<String>>>) -> Option<Seq<Option<Seq<char>>>> {
    match r {
        Some(v) => Some(v@.map_values(|g: Option<String>| match g {
            Some(s) => Some(s@),
            None => None,
        })),
        None => None,
    }
}

/// The texts of the groups, with an empty text for a group that took no part.
pub open spec fn group_texts(g: Seq<Option<Seq<char>>>) -> Seq<Seq<char>> {
    g.map_values(|o: Option<Seq<char>>| match o {
        Some(s) => s,
        None => Seq::empty(),
    })
}

/// Whether `pattern` matches somewhere in `text`.
pub open spec fn is_match(pattern: Seq<char>, text: Seq<char>) -> bool {
    regex_captures(pattern, text) is Some
}

/// The texts of the groups of the match, when there is one.
pub open spec fn match_texts(pattern: Seq<char>, text: Seq<char>) -> Seq<Seq<char>> {
    match regex_captures(pattern, text) {
        Some(g) => group_texts(g),
        None => Seq::empty(),
    }
}

impl Pattern {
    /// Compiles `source`; `None` when it is no valid regular expression.
    pub fn new(source: &str) -> (r: Option<Pattern>)
        ensures
            r is Some == regex_compiles(source@),
            r matches Some(p) ==> p@ == source@,
    {
        match compile_regex(source) {
            Ok(p) => Some(p),
            Err(_) => None,
        }
    }

    /// The texts of the capture groups of the first match in `text`, a group
    /// that took no part giving an empty text; `None` when nothing matches.
    pub fn captures(&self, text: &str) -> (r: Option<Vec<String>>)
        ensures
            r is Some == is_match(self@, text@),
            r matches Some(v) ==> crate::text::strings_view(v@) == match_texts(self@, text@),
    {
        match regex_groups(self, text) {
            None => None,
            Some(groups) => {
                let ghost g = groups_view(Some(groups));
                let mut out: Vec<String> = Vec::new();
                let mut i: usize = 0;
                while i < groups.len()
                    invariant
                        i <= groups@.len(),
                        g == groups_view(Some(groups)),
                        g == regex_captures(self@, text@),
                        crate::text::strings_view(out@) == group_texts(g->0.subrange(0, i as int)),
                    decreases groups@.len() - i,
                {
                    let t = match &groups[i] {
                        Some(s) => s.clone(),
                        None => String::new(),
                    };
                    assert(g->0[i as int] == match groups@[i as int] {
                        Some(s) => Some(s@),
                        None => None::<Seq<char>>,
                    });
                    assert(t@ == match g->0[i as int] {
                        Some(s) => s,
                        None => Seq::<char>::empty(),
                    });
                    let ghost before = out@;
                    out.push(t);
                    assert(crate::text::strings_view(out@) == crate::text::strings_view(before).push(t@));
                    assert(g->0.subrange(0, i + 1) == g->0.subrange(0, i as int).push(g->0[i as int]));
                    i = i + 1;
                    assert(crate::text::strings_view(out@) =~= group_texts(g->0.subrange(0, i as int)));
                }
                assert(g->0.subrange(0, groups@.len() as int) =~= g->0);
                Some(out)
            },
        }
    }
}

} // verus!
