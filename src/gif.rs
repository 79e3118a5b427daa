use vstd::prelude::*;

verus! {

/// Why no GIF can be picked from a search response.
#[derive(Clone, Copy, Debug, PartialEq, Eq, Structural)]
pub enum GifError {
    /// The result at this position carries no GIF URL.
    MissingUrl(usize),
}

/// Relies on rand's `thread_rng` and `Rng::gen_range`: a number drawn from `0..n`,
/// which panics on an empty range.
#[verifier::external_body]
fn pick_index(n: usize) -> (i: usize)
    requires
        n > 0,
    ensures
        i < n,
{
    rand::Rng::gen_range(&mut rand::thread_rng(), 0..n)
}

/// The position of the first result without a URL, if any.
pub open spec fn first_missing(urls: Seq<Option<String>>, i: int) -> bool {
    &&& 0 <= i < urls.len()
    &&& urls[i] is None
    &&& forall|j: int| 0 <= j < i ==> #[trigger] urls[j] is Some
}

/// Picks one GIF URL at random from the search results, one entry per result. A
/// result without a URL makes the whole response unusable; no results give no URL.
pub fn select_url(urls: Vec<Option<String>>) -> (r: Result<Option<String>, GifError>)
    ensures
        match r {
            Err(GifError::MissingUrl(i)) => first_missing(urls@, i as int),
            Ok(None) => urls@.len() == 0,
            Ok(Some(url)) => exists|j: int|
                0 <= j < urls@.len() && #[trigger] urls@[j] == Some(url),
        },
        (exists|i: int| 0 <= i < urls@.len() && #[trigger] urls@[i] is None) <==> r is Err,
{
    let mut list = urls;
    let mut i: usize = 0;
    while i < list.len()
        invariant
            list@ == urls@,
            i <= list@.len(),
            forall|j: int| 0 <= j < i ==> #[trigger] list@[j] is Some,
        decreases list@.len() - i,
    {
        if let None = &list[i] {
            assert(urls@[i as int] is None);
            return Err(GifError::MissingUrl(i));
        }
        i = i + 1;
    }
    if list.len() == 0 {
        return Ok(None);
    }
    let picked = pick_index(list.len());
    let url = list.remove(picked);
    assert(urls@[picked as int] == url);
    Ok(url)
}

} // verus!
