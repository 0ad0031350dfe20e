//! What the library decides of the embedder: where the model lives, the
//! fixed sequence length, and the integer shaping of tokenizer output into
//! aligned, padded model inputs. Inference itself is floating-point work
//! the process shell performs.

use vstd::prelude::*;

use crate::ext::home_dir_string;

verus! {

/// Configuration of the embedding service.
#[derive(Debug, Clone)]
pub struct EmbeddingConfig {
    /// Where the model file lives.
    pub model_path: String,
    /// Where the tokenizer file lives.
    pub tokenizer_path: String,
    /// The fixed sequence length inputs are padded or truncated to.
    pub max_length: usize,
    /// How many texts one batch holds.
    pub batch_size: usize,
}

impl Default for EmbeddingConfig {
    /// The defaults: the model cache under the home directory, sequences of
    /// 128 tokens, batches of 32.
    fn default() -> (r: EmbeddingConfig)
        ensures
            r.max_length == 128,
            r.batch_size == 32,
            r.model_path@.len() >= ".cortex/models/all-MiniLM-L6-v2/model.onnx"@.len(),
            r.tokenizer_path@.len() >= ".cortex/models/all-MiniLM-L6-v2/tokenizer.json"@.len(),
    {
        let home: String = match home_dir_string() {
            Some(h) => h,
            None => String::new(),
        };
        let mut model_path = String::from_str(home.as_str());
        model_path.append("/.cortex/models/all-MiniLM-L6-v2/model.onnx");
        let mut tokenizer_path = String::from_str(home.as_str());
        tokenizer_path.append("/.cortex/models/all-MiniLM-L6-v2/tokenizer.json");
        proof {
            reveal_strlit(".cortex/models/all-MiniLM-L6-v2/model.onnx");
            reveal_strlit("/.cortex/models/all-MiniLM-L6-v2/model.onnx");
            reveal_strlit(".cortex/models/all-MiniLM-L6-v2/tokenizer.json");
            reveal_strlit("/.cortex/models/all-MiniLM-L6-v2/tokenizer.json");
        }
        EmbeddingConfig { model_path, tokenizer_path, max_length: 128, batch_size: 32 }
    }
}

/// Pads or truncates one tokenizer output to a fixed length: positions past
/// the input hold zero, as the model's padding expects.
pub fn pad_to_length(values: &Vec<u32>, len: usize) -> (r: Vec<i64>)
    ensures
        r@.len() == len,
        forall|k: int|
            0 <= k < len ==> #[trigger] r@[k] == (if k < values@.len() {
                values@[k] as i64
            } else {
                0i64
            }),
{
    let mut r: Vec<i64> = Vec::new();
    let mut i: usize = 0;
    while i < len
        invariant
            i <= len,
            r@.len() == i,
            forall|k: int|
                0 <= k < i ==> #[trigger] r@[k] == (if k < values@.len() {
                    values@[k] as i64
                } else {
                    0i64
                }),
        decreases len - i,
    {
        if i < values.len() {
            r.push(values[i] as i64);
        } else {
            r.push(0);
        }
        i = i + 1;
    }
    r
}

} // verus!
