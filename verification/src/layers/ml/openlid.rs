//! The OpenLID v3 fastText model (194 languages): loading it. Its
//! labels are mapped by [`crate::openlid`].

use vstd::prelude::*;

use crate::openlid::{spec_is_supported_openlid_label, spec_strip_label_prefix, is_supported_openlid_label, strip_label_prefix};
use crate::text::{str_chars, string_from_chars};

verus! {

/// `s` with every line feed and carriage return turned into a space.
pub open spec fn spec_scrub_newlines(s: Seq<char>) -> Seq<char> {
    s.map_values(|c: char| if c == '\n' || c == '\r' { ' ' } else { c })
}

/// fastText reads one line: replace line breaks with spaces.
pub fn scrub_newlines(s: &str) -> (r: String)
    ensures
        r@ == spec_scrub_newlines(s@),
        r@.len() == s@.len(),
        forall|i: int| 0 <= i < r@.len() ==> #[trigger] r@[i] != '\n' && r@[i] != '\r',
{
    let chars = str_chars(s);
    let mut out: Vec<char> = Vec::new();
    let mut i: usize = 0;
    while i < chars.len()
        invariant
            i <= chars.len(),
            out@ =~= spec_scrub_newlines(chars@.take(i as int)),
        decreases chars.len() - i,
    {
        let c = chars[i];
        if c == '\n' || c == '\r' {
            out.push(' ');
        } else {
            out.push(c);
        }
        i += 1;
    }
    assert(chars@.take(chars.len() as int) =~= chars@);
    string_from_chars(out.as_slice())
}

/// Errors produced while constructing a [`OpenLidClassifier`].
#[derive(Debug)]
pub enum LoadError {
    /// No model path was given.
    NoModelPath,
    /// fastText could not load the model (file missing, corrupted,
    /// wrong format).
    FastText(String),
}

/// A loaded OpenLID v3 model and how many top predictions to request.
pub struct OpenLidClassifier {
    model: ::fasttext::FastText,
    top_k: usize,
}

/// Builder for [`OpenLidClassifier`]; the model path is required.
pub struct OpenLidClassifierBuilder {
    model_path: Option<String>,
    top_k: usize,
}

impl OpenLidClassifier {
    /// Start configuring a classifier: no model path, five predictions.
    pub fn builder() -> (b: OpenLidClassifierBuilder)
        ensures
            b.spec_model_path() is None,
            b.spec_top_k() == 5,
    {
        OpenLidClassifierBuilder { model_path: None, top_k: 5 }
    }

    pub closed spec fn spec_top_k(&self) -> usize {
        self.top_k
    }

    /// How many top predictions each call requests.
    pub fn predictions_requested(&self) -> (k: usize)
        ensures
            k == self.spec_top_k(),
    {
        self.top_k
    }

    /// The fastText model this classifier holds.
    pub closed spec fn spec_model(&self) -> ::fasttext::FastText {
        self.model
    }

    /// The loaded fastText model.
    pub fn model(&self) -> (m: &::fasttext::FastText)
        ensures
            *m == self.spec_model(),
    {
        &self.model
    }
}

impl OpenLidClassifierBuilder {
    pub closed spec fn spec_model_path(&self) -> Option<Seq<char>> {
        match &self.model_path {
            Some(p) => Some(p@),
            None => None,
        }
    }

    pub closed spec fn spec_top_k(&self) -> usize {
        self.top_k
    }

    /// Set the path to the fastText binary model file.
    pub fn model_path(self, p: &str) -> (b: Self)
        ensures
            b.spec_model_path() == Some(p@),
            b.spec_top_k() == self.spec_top_k(),
    {
        let chars = str_chars(p);
        let path = string_from_chars(chars.as_slice());
        OpenLidClassifierBuilder { model_path: Some(path), top_k: self.top_k }
    }

    /// How many top predictions to request; values below 1 count as 1.
    pub fn top_k(self, k: u8) -> (b: Self)
        ensures
            b.spec_model_path() == self.spec_model_path(),
            b.spec_top_k() == if k < 1 { 1 } else { k as usize },
    {
        let k = if k < 1 { 1u8 } else { k };
        OpenLidClassifierBuilder { model_path: self.model_path, top_k: k as usize }
    }

    /// The model path, if one was set.
    pub fn path(&self) -> (p: Option<&str>)
        ensures
            match p {
                Some(x) => self.spec_model_path() == Some(x@),
                None => self.spec_model_path() is None,
            },
    {
        match &self.model_path {
            Some(x) => Some(x.as_str()),
            None => None,
        }
    }

    /// Finalize the classifier. `loaded` is what loading the model file
    /// at [`Self::path`] gave (the model, or fastText's error as text); it
    /// is not read when no path was set, which is `NoModelPath`.
    pub fn build(self, loaded: Result<::fasttext::FastText, String>) -> (r: Result<
        OpenLidClassifier,
        LoadError,
    >)
        ensures
            self.spec_model_path() is None ==> r matches Err(LoadError::NoModelPath),
            self.spec_model_path() is Some ==> match loaded {
                Ok(m) => r matches Ok(c) && c.spec_model() == m && c.spec_top_k()
                    == self.spec_top_k(),
                Err(e) => r matches Err(LoadError::FastText(msg)) && msg == e,
            },
    {
        match self.model_path {
            None => Err(LoadError::NoModelPath),
            Some(_) => match loaded {
                Ok(model) => Ok(OpenLidClassifier { model, top_k: self.top_k }),
                Err(e) => Err(LoadError::FastText(e)),
            },
        }
    }
}

/// The label to report when the model's top label is off the curated
/// set (without its `__label__` prefix); none when it is on it.
pub fn unsupported_label(top_label: &str) -> (r: Option<String>)
    ensures
        match r {
            Some(code) => !spec_is_supported_openlid_label(top_label@) && code@
                == spec_strip_label_prefix(top_label@),
            None => spec_is_supported_openlid_label(top_label@),
        },
{
    if is_supported_openlid_label(top_label) {
        None
    } else {
        let code = strip_label_prefix(top_label);
        Some(string_from_chars(str_chars(code).as_slice()))
    }
}

} // verus!
