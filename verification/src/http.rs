//! HTTP forwarding actions and the content object built per message.

use crate::influx::{assoc_view, keys_sorted, sorted_insert, spec_sorted_insert};
use crate::json::{jv_of_pairs, JsonValue, Jv};
use crate::jsontext::spec_json_text;
use crate::strutil::{chars_to_string, lower_of, lowercase, string_to_chars};
use vstd::prelude::*;

verus! {

/// A forwarding method.
#[derive(Debug, Clone, Copy, PartialEq, Eq, Structural)]
pub enum HttpAction {
    Post,
    Put,
    Patch,
}

impl Default for HttpAction {
    /// The method used when none is configured.
    fn default() -> (r: Self)
        ensures
            r == HttpAction::Post,
    {
        HttpAction::Post
    }
}

impl HttpAction {
    /// The method name, as it goes on the wire.
    pub fn as_str(&self) -> (r: &'static str)
        ensures
            (*self == HttpAction::Post ==> r@ == "POST"@),
            (*self == HttpAction::Put ==> r@ == "PUT"@),
            (*self == HttpAction::Patch ==> r@ == "PATCH"@),
    {
        match self {
            HttpAction::Post => "POST",
            HttpAction::Put => "PUT",
            HttpAction::Patch => "PATCH",
        }
    }

    /// The method a configured action text names, read without regard
    /// to case; unknown texts name none.
    pub fn parse_action(s: &str) -> (r: Option<HttpAction>)
        ensures
            r == spec_parse_action(s@),
    {
        let l = lowercase(s);
        let lc = string_to_chars(l.as_str());
        proof {
            reveal_strlit("post");
            reveal_strlit("put");
            reveal_strlit("patch");
            assert("post"@ =~= seq!['p', 'o', 's', 't']);
            assert("put"@ =~= seq!['p', 'u', 't']);
            assert("patch"@ =~= seq!['p', 'a', 't', 'c', 'h']);
        }
        let post = string_to_chars("post");
        let put = string_to_chars("put");
        let patch = string_to_chars("patch");
        if crate::strutil::chars_eq(&lc, &post) {
            Some(HttpAction::Post)
        } else if crate::strutil::chars_eq(&lc, &put) {
            Some(HttpAction::Put)
        } else if crate::strutil::chars_eq(&lc, &patch) {
            Some(HttpAction::Patch)
        } else {
            None
        }
    }
}

/// The method an action text names: `post`, `put` or `patch` in any
/// case; anything else names none.
pub open spec fn spec_parse_action(s: Seq<char>) -> Option<HttpAction> {
    let l = lower_of(s);
    if l == seq!['p', 'o', 's', 't'] {
        Some(HttpAction::Post)
    } else if l == seq!['p', 'u', 't'] {
        Some(HttpAction::Put)
    } else if l == seq!['p', 'a', 't', 'c', 'h'] {
        Some(HttpAction::Patch)
    } else {
        None
    }
}

impl std::str::FromStr for HttpAction {
    type Err = ();

    /// Read a method name, without regard to case.
    fn from_str(s: &str) -> Result<Self, Self::Err> {
        match HttpAction::parse_action(s) {
            Some(a) => Ok(a),
            None => Err(()),
        }
    }
}

/// The text a JSON value contributes to the content object: a string
/// stands for itself, null contributes the empty text, and any other
/// value its JSON text.
pub open spec fn spec_content_text(v: Jv) -> Seq<char> {
    match v {
        Jv::Str(s) => s,
        Jv::Null => Seq::<char>::empty(),
        _ => spec_json_text(v),
    }
}

/// The key-value content forwarded per message, kept sorted by key
/// with each key held once.
pub struct HttpContentBuilder {
    pub content: Vec<(String, String)>,
}

impl HttpContentBuilder {
    /// The sortedness the builder keeps.
    pub open spec fn inv(&self) -> bool {
        keys_sorted(assoc_view(self.content@))
    }

    /// An empty content object.
    pub fn new() -> (r: HttpContentBuilder)
        ensures
            r.inv(),
            assoc_view(r.content@) == Seq::<(Seq<char>, Seq<char>)>::empty(),
    {
        let r = HttpContentBuilder { content: Vec::new() };
        proof {
            assert(assoc_view(r.content@) =~= Seq::<(Seq<char>, Seq<char>)>::empty());
        }
        r
    }

    /// Add an entry, replacing one with the same key.
    pub fn add(&mut self, key: &str, value: &str)
        requires
            old(self).inv(),
        ensures
            final(self).inv(),
            assoc_view(final(self).content@) == spec_sorted_insert(
                assoc_view(old(self).content@),
                key@,
                value@,
            ),
    {
        let kc = string_to_chars(key);
        let vc = string_to_chars(value);
        sorted_insert(&mut self.content, (chars_to_string(&kc), chars_to_string(&vc)));
    }

    /// Add an entry taken from a JSON value.
    pub fn add_from_json(&mut self, key: &str, value: &JsonValue)
        requires
            old(self).inv(),
        ensures
            final(self).inv(),
            assoc_view(final(self).content@) == spec_sorted_insert(
                assoc_view(old(self).content@),
                key@,
                spec_content_text(value@),
            ),
    {
        let kc = string_to_chars(key);
        let text: String = match value {
            JsonValue::Str(s) => s.clone(),
            JsonValue::Null => String::new(),
            _ => {
                let chars = crate::jsontext::json_text_chars(value);
                chars_to_string(&chars)
            },
        };
        sorted_insert(&mut self.content, (chars_to_string(&kc), text));
    }

    /// Whether the content object is empty.
    pub fn is_empty(&self) -> (r: bool)
        ensures
            r == (self.content@.len() == 0),
    {
        self.content.len() == 0
    }

    /// The content as a key-value list, sorted by key.
    pub fn build(self) -> (r: Vec<(String, String)>)
        ensures
            assoc_view(r@) == assoc_view(self.content@),
    {
        self.content
    }

    /// The content as a JSON object, entries sorted by key.
    pub fn build_json(self) -> (r: JsonValue)
        ensures
            r@ == Jv::Object(
                Seq::new(
                    assoc_view(self.content@).len(),
                    |i: int|
                        (
                            assoc_view(self.content@)[i].0,
                            Jv::Str(assoc_view(self.content@)[i].1),
                        ),
                ),
            ),
    {
        let ghost cv = self.content@;
        let mut entries: Vec<(String, JsonValue)> = Vec::new();
        let mut i: usize = 0;
        let content = self.content;
        while i < content.len()
            invariant
                content@ == cv,
                i <= cv.len(),
                entries@.len() == i,
                forall|j: int|
                    0 <= j < i ==> (#[trigger] entries@[j]).0@ == cv[j].0@ && entries@[j].1@
                        == Jv::Str(cv[j].1@),
            decreases cv.len() - i,
        {
            let key = content[i].0.clone();
            let value = JsonValue::Str(content[i].1.clone());
            entries.push((key, value));
            i = i + 1;
        }
        let ghost ev = entries@;
        let r = JsonValue::Object(entries);
        proof {
            crate::json::lemma_jv_of_pairs_props(ev);
            assert(jv_of_pairs(ev) =~= Seq::new(
                assoc_view(cv).len(),
                |i: int| (assoc_view(cv)[i].0, Jv::Str(assoc_view(cv)[i].1)),
            ));
        }
        r
    }
}

} // verus!
