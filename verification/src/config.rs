//! The client settings: model name, endpoint and optional system prompt,
//! with the label logic that turns a model name into a speaker label.

use vstd::prelude::*;
use crate::text::{chars_of, string_from_chars, sub_vec};

verus! {

/// The persisted settings: the model to talk to, the endpoint to reach
/// it at, and an optional system prompt sent ahead of the conversation.
pub struct Config {
    pub model: String,
    pub uri: String,
    pub system: Option<String>,
}

impl Default for Config {
    /// The substitute settings used when none can be loaded.
    fn default() -> (c: Config)
        ensures
            c.model@ == "deepseek-r1:1.5b"@,
            c.uri@ == "http://localhost:11434"@,
            c.system is None,
    {
        Config {
            model: "deepseek-r1:1.5b".to_owned(),
            uri: "http://localhost:11434".to_owned(),
            system: None,
        }
    }
}

/// A character that ends the display label inside a model name.
pub open spec fn is_sep(c: char) -> bool {
    c == ':' || c == '@' || c == '/'
}

/// The position of the first label separator, or the length of `s`.
pub open spec fn first_sep(s: Seq<char>) -> int
    decreases s.len(),
{
    if s.len() == 0 {
        0
    } else if is_sep(s[0]) {
        0
    } else {
        1 + first_sep(s.drop_first())
    }
}

proof fn lemma_first_sep_is(s: Seq<char>, j: int)
    requires
        0 <= j <= s.len(),
        forall|k: int| 0 <= k < j ==> !is_sep(s[k]),
        j < s.len() ==> is_sep(s[j]),
    ensures
        first_sep(s) == j,
    decreases j,
{
    if j == 0 {
    } else {
        let t = s.drop_first();
        assert(forall|k: int| 0 <= k < j - 1 ==> !is_sep(t[k]));
        lemma_first_sep_is(t, j - 1);
    }
}

/// The speaker label a model name yields: its prefix before the first
/// `':'`, `'@'` or `'/'`, or the whole name when none occurs.
pub open spec fn model_label_spec(s: Seq<char>) -> Seq<char> {
    s.subrange(0, first_sep(s))
}

/// Computes the display label for a model name.
pub fn model_label(model: &String) -> (l: String)
    ensures
        l@ == model_label_spec(model@),
{
    let v = chars_of(model.as_str());
    let mut j: usize = 0;
    while j < v.len() && !(v[j] == ':' || v[j] == '@' || v[j] == '/')
        invariant
            j <= v.len(),
            v@ == model@,
            forall|k: int| 0 <= k < j ==> !is_sep(v@[k]),
        decreases v.len() - j,
    {
        j = j + 1;
    }
    proof {
        lemma_first_sep_is(model@, j as int);
    }
    let label = sub_vec(&v, 0, j);
    string_from_chars(&label)
}

} // verus!
