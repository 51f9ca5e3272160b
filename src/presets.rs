//! Per-model defaults of the generation service: the undesired-content
//! preset numbers and the quality tags appended to prompts.

use vstd::prelude::*;

verus! {

/// Whether two texts are equal.
pub fn str_eq(a: &str, b: &str) -> (r: bool)
    ensures
        r == (a@ == b@),
{
    let n = a.unicode_len();
    if n != b.unicode_len() {
        return false;
    }
    let mut i: usize = 0;
    while i < n
        invariant
            n == a@.len() == b@.len(),
            i <= n,
            a@.subrange(0, i as int) == b@.subrange(0, i as int),
        decreases n - i,
    {
        if a.get_char(i) != b.get_char(i) {
            return false;
        }
        i += 1;
        assert(a@.subrange(0, i as int) =~= a@.subrange(0, i - 1).push(a@[i - 1]));
        assert(b@.subrange(0, i as int) =~= b@.subrange(0, i - 1).push(b@[i - 1]));
    }
    assert(a@.subrange(0, n as int) =~= a@);
    assert(b@.subrange(0, n as int) =~= b@);
    true
}

/// The number the service gives an undesired-content preset of a model.
pub open spec fn uc_preset_spec(model: Seq<char>, preset: Seq<char>) -> i32 {
    if model == "nai-diffusion-4-5-full"@ {
        if preset == "Heavy"@ {
            0
        } else if preset == "Light"@ {
            1
        } else if preset == "Furry Focus"@ {
            2
        } else if preset == "Human Focus"@ {
            3
        } else {
            4
        }
    } else if model == "nai-diffusion-3"@ || model == "nai-diffusion-4-5-curated"@ {
        if preset == "Heavy"@ {
            0
        } else if preset == "Light"@ {
            1
        } else if preset == "Human Focus"@ {
            2
        } else {
            3
        }
    } else if model == "nai-diffusion-furry-3"@ || model == "nai-diffusion-4-curated-preview"@
        || model == "nai-diffusion-4-full"@ {
        if preset == "Heavy"@ {
            0
        } else if preset == "Light"@ {
            1
        } else {
            2
        }
    } else {
        0
    }
}

/// See [`uc_preset_spec`]; an unknown preset counts as "None".
pub fn uc_preset_id(model: &str, preset: &str) -> (r: i32)
    ensures
        r == uc_preset_spec(model@, preset@),
{
    if str_eq(model, "nai-diffusion-4-5-full") {
        if str_eq(preset, "Heavy") {
            0
        } else if str_eq(preset, "Light") {
            1
        } else if str_eq(preset, "Furry Focus") {
            2
        } else if str_eq(preset, "Human Focus") {
            3
        } else {
            4
        }
    } else if str_eq(model, "nai-diffusion-3") || str_eq(model, "nai-diffusion-4-5-curated") {
        if str_eq(preset, "Heavy") {
            0
        } else if str_eq(preset, "Light") {
            1
        } else if str_eq(preset, "Human Focus") {
            2
        } else {
            3
        }
    } else if str_eq(model, "nai-diffusion-furry-3") || str_eq(model, "nai-diffusion-4-curated-preview")
        || str_eq(model, "nai-diffusion-4-full") {
        if str_eq(preset, "Heavy") {
            0
        } else if str_eq(preset, "Light") {
            1
        } else {
            2
        }
    } else {
        0
    }
}

/// The quality tags appended to a prompt for a model; empty for a model
/// without any.
pub open spec fn quality_tags_spec(model: Seq<char>) -> Seq<char> {
    if model == "nai-diffusion-4-5-full"@ {
        ", very aesthetic, masterpiece, no text"@
    } else if model == "nai-diffusion-4-5-curated"@ {
        ", very aesthetic, masterpiece, no text, -0.8::feet::, rating:general"@
    } else if model == "nai-diffusion-4-full"@ {
        ", no text, best quality, very aesthetic, absurdres"@
    } else if model == "nai-diffusion-4-curated-preview"@ {
        ", rating:general, best quality, very aesthetic, absurdres"@
    } else if model == "nai-diffusion-3"@ {
        ", best quality, amazing quality, very aesthetic, absurdres"@
    } else if model == "nai-diffusion-furry-3"@ {
        ", {best quality}, {amazing quality}"@
    } else {
        ""@
    }
}

/// See [`quality_tags_spec`].
pub fn quality_tags(model: &str) -> (r: &'static str)
    ensures
        r@ == quality_tags_spec(model@),
{
    if str_eq(model, "nai-diffusion-4-5-full") {
        ", very aesthetic, masterpiece, no text"
    } else if str_eq(model, "nai-diffusion-4-5-curated") {
        ", very aesthetic, masterpiece, no text, -0.8::feet::, rating:general"
    } else if str_eq(model, "nai-diffusion-4-full") {
        ", no text, best quality, very aesthetic, absurdres"
    } else if str_eq(model, "nai-diffusion-4-curated-preview") {
        ", rating:general, best quality, very aesthetic, absurdres"
    } else if str_eq(model, "nai-diffusion-3") {
        ", best quality, amazing quality, very aesthetic, absurdres"
    } else if str_eq(model, "nai-diffusion-furry-3") {
        ", {best quality}, {amazing quality}"
    } else {
        ""
    }
}

} // verus!
