//! The lid.176 fastText language-identification model: loading it, and
//! mapping its labels onto the library's tags.
//!
//! Its `__label__zh` is deliberately not mapped: lid.176 does not split
//! Simplified from Traditional, which orthography decides.

use vstd::prelude::*;

use crate::text::{str_chars, str_eq, str_strip_prefix, string_from_chars};

verus! {

/// `s` with every line feed and carriage return turned into a space.
pub open spec fn spec_scrub_newlines(s: Seq<char>) -> Seq<char> {
    s.map_values(|c: char| if c == '\n' || c == '\r' { ' ' } else { c })
}

/// fastText reads one line: replace line breaks with spaces.
pub fn scrub_newlines(s: &str) -> (r: String)
    ensures
        r@ == spec_scrub_newlines(s@),
        r@.len() == s@.len(),
        forall|i: int| 0 <= i < r@.len() ==> #[trigger] r@[i] != '\n' && r@[i] != '\r',
{
    let chars = str_chars(s);
    let mut out: Vec<char> = Vec::new();
    let mut i: usize = 0;
    while i < chars.len()
        invariant
            i <= chars.len(),
            out@ =~= spec_scrub_newlines(chars@.take(i as int)),
        decreases chars.len() - i,
    {
        let c = chars[i];
        if c == '\n' || c == '\r' {
            out.push(' ');
        } else {
            out.push(c);
        }
        i += 1;
    }
    assert(chars@.take(chars.len() as int) =~= chars@);
    string_from_chars(out.as_slice())
}

#[verifier::external_type_specification]
#[verifier::external_body]
pub struct ExFastText(::fasttext::FastText);

/// Errors produced while constructing a [`FastTextClassifier`].
#[derive(Debug)]
pub enum LoadError {
    /// No model path was given.
    NoModelPath,
    /// fastText could not load the model (file missing, corrupted,
    /// wrong format).
    FastText(String),
}

/// A loaded lid.176 model and how many top predictions to request.
pub struct FastTextClassifier {
    model: ::fasttext::FastText,
    top_k: usize,
}

/// Builder for [`FastTextClassifier`]; the model path is required.
pub struct FastTextClassifierBuilder {
    model_path: Option<String>,
    top_k: usize,
}

impl FastTextClassifier {
    /// Start configuring a classifier: no model path, five predictions.
    pub fn builder() -> (b: FastTextClassifierBuilder)
        ensures
            b.spec_model_path() is None,
            b.spec_top_k() == 5,
    {
        FastTextClassifierBuilder { model_path: None, top_k: 5 }
    }

    pub closed spec fn spec_top_k(&self) -> usize {
        self.top_k
    }

    /// How many top predictions each call requests.
    pub fn predictions_requested(&self) -> (k: usize)
        ensures
            k == self.spec_top_k(),
    {
        self.top_k
    }

    /// The fastText model this classifier holds.
    pub closed spec fn spec_model(&self) -> ::fasttext::FastText {
        self.model
    }

    /// The loaded fastText model.
    pub fn model(&self) -> (m: &::fasttext::FastText)
        ensures
            *m == self.spec_model(),
    {
        &self.model
    }
}

impl FastTextClassifierBuilder {
    pub closed spec fn spec_model_path(&self) -> Option<Seq<char>> {
        match &self.model_path {
            Some(p) => Some(p@),
            None => None,
        }
    }

    pub closed spec fn spec_top_k(&self) -> usize {
        self.top_k
    }

    /// Set the path to the fastText binary model file.
    pub fn model_path(self, p: &str) -> (b: Self)
        ensures
            b.spec_model_path() == Some(p@),
            b.spec_top_k() == self.spec_top_k(),
    {
        let chars = str_chars(p);
        let path = string_from_chars(chars.as_slice());
        FastTextClassifierBuilder { model_path: Some(path), top_k: self.top_k }
    }

    /// How many top predictions to request; values below 1 count as 1.
    pub fn top_k(self, k: u8) -> (b: Self)
        ensures
            b.spec_model_path() == self.spec_model_path(),
            b.spec_top_k() == if k < 1 { 1 } else { k as usize },
    {
        let k = if k < 1 { 1u8 } else { k };
        FastTextClassifierBuilder { model_path: self.model_path, top_k: k as usize }
    }

    /// The model path, if one was set.
    pub fn path(&self) -> (p: Option<&str>)
        ensures
            match p {
                Some(x) => self.spec_model_path() == Some(x@),
                None => self.spec_model_path() is None,
            },
    {
        match &self.model_path {
            Some(x) => Some(x.as_str()),
            None => None,
        }
    }

    /// Finalize the classifier. `loaded` is what loading the model file
    /// at [`Self::path`] gave (the model, or fastText's error as text); it
    /// is not read when no path was set, which is `NoModelPath`.
    pub fn build(self, loaded: Result<::fasttext::FastText, String>) -> (r: Result<
        FastTextClassifier,
        LoadError,
    >)
        ensures
            self.spec_model_path() is None ==> r matches Err(LoadError::NoModelPath),
            self.spec_model_path() is Some ==> match loaded {
                Ok(m) => r matches Ok(c) && c.spec_model() == m && c.spec_top_k()
                    == self.spec_top_k(),
                Err(e) => r matches Err(LoadError::FastText(msg)) && msg == e,
            },
    {
        match self.model_path {
            None => Err(LoadError::NoModelPath),
            Some(_) => match loaded {
                Ok(model) => Ok(FastTextClassifier { model, top_k: self.top_k }),
                Err(e) => Err(LoadError::FastText(e)),
            },
        }
    }
}

/// The library tag of a lid.176 language code: `en-US`, `vi-VN`, `ja`
/// and `ko`; every other code maps to nothing.
pub open spec fn spec_map_code(code: Seq<char>) -> Option<Seq<char>> {
    if code == "en"@ {
        Some("en-US"@)
    } else if code == "vi"@ {
        Some("vi-VN"@)
    } else if code == "ja"@ {
        Some("ja"@)
    } else if code == "ko"@ {
        Some("ko"@)
    } else {
        None
    }
}

/// `s` without one leading `__label__`, if it has one.
pub open spec fn spec_strip_label(s: Seq<char>) -> Seq<char> {
    if "__label__"@.is_prefix_of(s) {
        s.skip("__label__"@.len() as int)
    } else {
        s
    }
}

fn strip_label(s: &str) -> (r: &str)
    ensures
        r@ == spec_strip_label(s@),
{
    match str_strip_prefix(s, "__label__") {
        Some(rest) => rest,
        None => s,
    }
}

/// Map a fastText label, with or without its `__label__` prefix.
pub fn map_label(raw: &str) -> (r: Option<&'static str>)
    ensures
        match r {
            Some(t) => spec_map_code(spec_strip_label(raw@)) == Some(t@),
            None => spec_map_code(spec_strip_label(raw@)) is None,
        },
{
    let code = strip_label(raw);
    if str_eq(code, "en") {
        Some("en-US")
    } else if str_eq(code, "vi") {
        Some("vi-VN")
    } else if str_eq(code, "ja") {
        Some("ja")
    } else if str_eq(code, "ko") {
        Some("ko")
    } else {
        None
    }
}

/// The lid.176 codes of the supported languages; `zh` counts although
/// it is not mapped.
pub open spec fn spec_is_supported_code(code: Seq<char>) -> bool {
    code == "en"@ || code == "vi"@ || code == "ja"@ || code == "ko"@ || code == "zh"@
}

pub fn is_supported_lid176_code(code: &str) -> (b: bool)
    ensures
        b == spec_is_supported_code(code@),
{
    str_eq(code, "en") || str_eq(code, "vi") || str_eq(code, "ja") || str_eq(code, "ko")
        || str_eq(code, "zh")
}

/// Every code that maps to a tag is a supported code.
pub proof fn lemma_mapped_codes_supported(code: Seq<char>)
    ensures
        spec_map_code(code) is Some ==> spec_is_supported_code(code),
{
}

/// A label maps the same with or without its `__label__` prefix.
pub proof fn lemma_fasttext_prefix_tolerated(code: Seq<char>)
    requires
        !"__label__"@.is_prefix_of(code),
    ensures
        spec_map_code(spec_strip_label("__label__"@ + code)) == spec_map_code(spec_strip_label(code)),
{
    let p = "__label__"@;
    assert(p.is_prefix_of(p + code)) by {
        assert((p + code).subrange(0, p.len() as int) =~= p);
    }
    assert((p + code).skip(p.len() as int) =~= code);
}

/// The code to report when the model's top label is not a supported
/// lid.176 code (without its `__label__` prefix); none when it is.
pub fn unsupported_code(top_label: &str) -> (r: Option<String>)
    ensures
        match r {
            Some(code) => !spec_is_supported_code(spec_strip_label(top_label@)) && code@
                == spec_strip_label(top_label@),
            None => spec_is_supported_code(spec_strip_label(top_label@)),
        },
{
    let code = strip_label(top_label);
    if is_supported_lid176_code(code) {
        None
    } else {
        Some(string_from_chars(str_chars(code).as_slice()))
    }
}

} // verus!
