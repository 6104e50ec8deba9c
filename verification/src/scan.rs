//! The content test: does a file's text hold the keyword?

use vstd::prelude::*;

use crate::text::{chars_of, find, is_substring, lemma_empty_is_substring, lowercase, lowercase_of,
    text_of, utf8_text};

verus! {

/// How upper and lower case count when the keyword is looked for.
#[derive(Clone, Copy, Debug, PartialEq, Eq, Structural)]
pub enum CasePolicy {
    /// Text and keyword are both put in lower case before they are compared.
    Insensitive,
    /// Text and keyword are compared as they stand.
    Sensitive,
}

impl Default for CasePolicy {
    /// Case is ignored unless the caller asks otherwise.
    fn default() -> (policy: CasePolicy)
        ensures
            policy == CasePolicy::Insensitive,
    {
        CasePolicy::Insensitive
    }
}

/// The form in which a text is compared under `policy`.
pub open spec fn folded(policy: CasePolicy, text: Seq<char>) -> Seq<char> {
    match policy {
        CasePolicy::Insensitive => lowercase_of(text),
        CasePolicy::Sensitive => text,
    }
}

/// Whether `text` holds `keyword` under `policy`. The empty keyword is held by
/// every text.
pub open spec fn keyword_found(policy: CasePolicy, keyword: Seq<char>, text: Seq<char>) -> bool {
    keyword.len() == 0 || is_substring(folded(policy, keyword), folded(policy, text))
}

/// A keyword made ready for many comparisons.
pub struct Keyword {
    text: String,
    policy: CasePolicy,
    needle: Vec<char>,
}

impl Keyword {
    #[verifier::type_invariant]
    spec fn well_formed(&self) -> bool {
        self.needle@ == folded(self.policy, self.text@)
    }

    /// The keyword as it was given.
    pub closed spec fn keyword(&self) -> Seq<char> {
        self.text@
    }

    /// The policy that the keyword is compared under.
    pub closed spec fn case_policy(&self) -> CasePolicy {
        self.policy
    }

    /// Prepares `keyword` for comparisons under `policy`.
    pub fn new(keyword: &str, policy: CasePolicy) -> (ready: Keyword)
        ensures
            ready.keyword() == keyword@,
            ready.case_policy() == policy,
    {
        let needle = match policy {
            CasePolicy::Insensitive => {
                let lower = lowercase(keyword);
                chars_of(lower.as_str())
            },
            CasePolicy::Sensitive => chars_of(keyword),
        };
        Keyword { text: keyword.to_owned(), policy, needle }
    }

    /// The keyword as it was given.
    pub fn text(&self) -> (text: &str)
        ensures
            text@ == self.keyword(),
    {
        self.text.as_str()
    }

    /// The policy that the keyword is compared under.
    pub fn policy(&self) -> (policy: CasePolicy)
        ensures
            policy == self.case_policy(),
    {
        self.policy
    }

    /// Whether `text` holds the keyword.
    pub fn matches(&self, text: &str) -> (found: bool)
        ensures
            found == keyword_found(self.case_policy(), self.keyword(), text@),
    {
        proof {
            use_type_invariant(self);
        }
        if self.text.as_str().is_empty() {
            return true;
        }
        let hay = match self.policy {
            CasePolicy::Insensitive => {
                let lower = lowercase(text);
                chars_of(lower.as_str())
            },
            CasePolicy::Sensitive => chars_of(text),
        };
        find(&hay, &self.needle).is_some()
    }
}

/// What reading a file gave.
#[derive(Clone, Debug, PartialEq, Eq)]
pub enum FileContent {
    /// The file could not be opened or read.
    Unreadable,
    /// The bytes of the file.
    Bytes(Vec<u8>),
}

/// What the content test found.
#[derive(Clone, Copy, Debug, PartialEq, Eq, Structural)]
pub enum ScanOutcome {
    /// The file's text holds the keyword.
    Matched,
    /// The file's text does not hold the keyword.
    NoMatch,
    /// The file could not be read.
    Unreadable,
    /// The file's bytes are not text.
    NotText,
}

/// The outcome of the content test on `content`.
pub open spec fn scan_outcome(content: FileContent, policy: CasePolicy, keyword: Seq<char>) -> ScanOutcome {
    match content {
        FileContent::Unreadable => ScanOutcome::Unreadable,
        FileContent::Bytes(bytes) => match text_of(bytes@) {
            None => ScanOutcome::NotText,
            Some(text) => if keyword_found(policy, keyword, text) {
                ScanOutcome::Matched
            } else {
                ScanOutcome::NoMatch
            },
        },
    }
}

/// Tests what was read of a file for the keyword. A file that could not be
/// read, or that holds no text, does not match.
pub fn scan(content: &FileContent, keyword: &Keyword) -> (outcome: ScanOutcome)
    ensures
        outcome == scan_outcome(*content, keyword.case_policy(), keyword.keyword()),
{
    match content {
        FileContent::Unreadable => ScanOutcome::Unreadable,
        FileContent::Bytes(bytes) => match utf8_text(bytes.as_slice()) {
            None => ScanOutcome::NotText,
            Some(text) => if keyword.matches(text) {
                ScanOutcome::Matched
            } else {
                ScanOutcome::NoMatch
            },
        },
    }
}

/// The empty keyword is found in every text, under either policy.
pub proof fn lemma_empty_keyword_matches_all(policy: CasePolicy, text: Seq<char>)
    ensures
        keyword_found(policy, Seq::<char>::empty(), text),
{
}

/// Under the case-sensitive policy the test is the plain substring test.
pub proof fn lemma_sensitive_is_substring(keyword: Seq<char>, text: Seq<char>)
    ensures
        keyword_found(CasePolicy::Sensitive, keyword, text) <==> is_substring(keyword, text),
{
    if keyword.len() == 0 {
        lemma_empty_is_substring(text);
        assert(keyword =~= Seq::<char>::empty());
    }
}

/// With the empty keyword every file that holds text matches, and no other.
pub proof fn lemma_empty_keyword_matches_every_text(content: FileContent, policy: CasePolicy)
    ensures
        scan_outcome(content, policy, Seq::<char>::empty()) == ScanOutcome::Matched <==> (content matches FileContent::Bytes(
            bytes,
        ) && text_of(bytes@) is Some),
{
}

} // verus!
