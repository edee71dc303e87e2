//! The structured generation record that the parameter parser produces and the
//! persistence layer stores.

use vstd::prelude::*;

verus! {

/// Parameters that were used to generate an image, as recorded in its
/// embedded metadata, together with the fields the record store assigns.
///
/// A value exists only if every mandatory field of the raw blob parsed;
/// the optional `clip_skip` may be absent without invalidating the record.
/// `cfg_scale` is held as the unsigned integer the grammar accepts for the
/// `CFG scale` field. `created_at` is seconds since the Unix epoch, as the
/// record store reports it.
#[derive(Debug, Clone, PartialEq)]
pub struct Image {
    pub id: i64,
    pub prompt: String,
    pub negative_prompt: String,
    pub steps: i64,
    pub sampler: String,
    pub cfg_scale: u64,
    pub seed: i64,
    pub width: i64,
    pub height: i64,
    pub model_hash: String,
    pub model: String,
    pub clip_skip: Option<i64>,
    pub file_path: Option<String>,
    pub created_at: i64,
}

/// Mathematical model of an [`Image`]: every text field as its character
/// sequence, every number as an unbounded integer.
pub struct ImageModel {
    pub id: int,
    pub prompt: Seq<char>,
    pub negative_prompt: Seq<char>,
    pub steps: int,
    pub sampler: Seq<char>,
    pub cfg_scale: int,
    pub seed: int,
    pub width: int,
    pub height: int,
    pub model_hash: Seq<char>,
    pub model: Seq<char>,
    pub clip_skip: Option<int>,
    pub file_path: Option<Seq<char>>,
    pub created_at: int,
}

impl View for Image {
    type V = ImageModel;

    open spec fn view(&self) -> ImageModel {
        ImageModel {
            id: self.id as int,
            prompt: self.prompt@,
            negative_prompt: self.negative_prompt@,
            steps: self.steps as int,
            sampler: self.sampler@,
            cfg_scale: self.cfg_scale as int,
            seed: self.seed as int,
            width: self.width as int,
            height: self.height as int,
            model_hash: self.model_hash@,
            model: self.model@,
            clip_skip: match self.clip_skip {
                Some(v) => Some(v as int),
                None => None,
            },
            file_path: match self.file_path {
                Some(ref p) => Some(p@),
                None => None,
            },
            created_at: self.created_at as int,
        }
    }
}

} // verus!
