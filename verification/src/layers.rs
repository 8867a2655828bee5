pub mod context_window;
pub mod dictionary;
pub mod function_words;
pub mod ml;
pub mod morphology;
pub mod ngram;
pub mod normalize;
pub mod orthography;
pub mod script;
