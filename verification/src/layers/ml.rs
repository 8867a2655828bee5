pub mod fasttext;
pub mod openlid;
