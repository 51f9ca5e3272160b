use vstd::prelude::*;

verus! {

/// One finished sub-generation: the seed it used and where its image went.
#[derive(Debug)]
pub struct GenerateResponse {
    pub seed: u64,
    pub output_path: String,
    pub url: String,
}

impl GenerateResponse {
    /// An independent copy with the same fields.
    pub fn duplicate(&self) -> (r: GenerateResponse)
        ensures
            r == *self,
    {
        GenerateResponse {
            seed: self.seed,
            output_path: self.output_path.clone(),
            url: self.url.clone(),
        }
    }
}

/// Copies a list of outputs element by element.
pub fn duplicate_outputs(v: &Vec<GenerateResponse>) -> (r: Vec<GenerateResponse>)
    ensures
        r@ == v@,
{
    let mut r: Vec<GenerateResponse> = Vec::new();
    let mut i: usize = 0;
    while i < v.len()
        invariant
            i <= v@.len(),
            r@ == v@.subrange(0, i as int),
        decreases v@.len() - i,
    {
        r.push(v[i].duplicate());
        i += 1;
        assert(r@ =~= v@.subrange(0, i as int));
    }
    assert(r@ =~= v@);
    r
}

} // verus!
