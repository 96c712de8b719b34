use vstd::prelude::*;

verus! {

#[verifier::external_type_specification]
#[verifier::external_body]
pub struct ExRegex(regex::Regex);

/// Whether the regular-expression engine accepts `p` as a pattern (its
/// syntax, within its default size limit).
pub uninterp spec fn is_valid_pattern(p: Seq<char>) -> bool;

/// Character positions `[start, end)` of the first (leftmost) match of
/// pattern `p` in `line`, if there is one.
pub uninterp spec fn first_match(p: Seq<char>, line: Seq<char>) -> Option<(int, int)>;

/// Relies on `regex::Regex::new`: it fails exactly on the patterns that the
/// engine refuses; which those are depends on the pattern text alone.
#[verifier::external_body]
fn compile(text: &str) -> (r: Option<regex::Regex>)
    ensures
        r is Some <==> is_valid_pattern(text@),
{
    regex::Regex::new(text).ok()
}

/// Relies on `regex::Regex::find` (the leftmost-first match) and on
/// `Match::start` / `Match::end`, byte offsets on character boundaries with
/// `start <= end`; they are handed back as character positions.
///
/// `p.re` is always the compilation of `p.text`: only [`Pattern::new`]
/// builds a [`Pattern`], and its fields are private.
#[verifier::external_body]
fn find_chars(p: &Pattern, line: &str) -> (r: Option<(usize, usize)>)
    ensures
        first_match(p.text@, line@) == match r {
            Some((s, e)) => Some((s as int, e as int)),
            None => None::<(int, int)>,
        },
        r matches Some((s, e)) ==> s <= e <= line@.len(),
{
    match p.re.find(line) {
        Some(m) => Some((line[..m.start()].chars().count(), line[..m.end()].chars().count())),
        None => None,
    }
}

/// The pattern text was refused by the regular-expression engine.
#[derive(Debug, Clone, Copy, PartialEq, Eq)]
pub struct InvalidPattern;

/// A compiled regular expression together with the text it was compiled
/// from.
pub struct Pattern {
    text: String,
    re: regex::Regex,
}

impl Pattern {
    /// The text the pattern was compiled from.
    pub closed spec fn text(&self) -> Seq<char> {
        self.text@
    }

    /// Compiles `text`; fails exactly when the engine refuses it.
    pub fn new(text: &str) -> (r: Result<Pattern, InvalidPattern>)
        ensures
            r is Ok <==> is_valid_pattern(text@),
            r matches Ok(p) ==> p.text() == text@,
    {
        match compile(text) {
            Some(re) => Ok(Pattern { text: text.to_owned(), re }),
            None => Err(InvalidPattern),
        }
    }

    /// Whether `text` compiles.
    pub fn is_valid(text: &str) -> (r: bool)
        ensures
            r == is_valid_pattern(text@),
    {
        compile(text).is_some()
    }

    /// The text the pattern was compiled from.
    pub fn as_str(&self) -> (r: &str)
        ensures
            r@ == self.text(),
    {
        self.text.as_str()
    }

    /// Character positions `[start, end)` of the first match in `line`.
    pub fn find(&self, line: &str) -> (r: Option<(usize, usize)>)
        ensures
            first_match(self.text(), line@) == match r {
                Some((s, e)) => Some((s as int, e as int)),
                None => None::<(int, int)>,
            },
            r matches Some((s, e)) ==> s <= e <= line@.len(),
    {
        find_chars(self, line)
    }
}

} // verus!
