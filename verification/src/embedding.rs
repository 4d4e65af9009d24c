//! The client of the embedding service and the availability it tracks.

use std::sync::atomic::{AtomicBool, Ordering};
use std::sync::Arc;

use vstd::prelude::*;

use crate::text::{chars_of, push_str, string_of_range};

verus! {

#[verifier::external_type_specification]
#[verifier::external_body]
pub struct ExHttpClient(reqwest::Client);

/// `reqwest::Client::builder().timeout(..).build()`, or the default client when
/// building fails. Nothing is stated of the client.
#[verifier::external_body]
fn http_client_with_timeout(timeout_secs: u64) -> reqwest::Client {
    reqwest::Client::builder().timeout(std::time::Duration::from_secs(timeout_secs)).build().unwrap_or_default()
}

/// `s` without its trailing `/` characters (`str::trim_end_matches('/')`).
pub open spec fn trim_trailing_slashes(s: Seq<char>) -> Seq<char>
    decreases s.len(),
{
    if s.len() > 0 && s.last() == '/' {
        trim_trailing_slashes(s.drop_last())
    } else {
        s
    }
}

/// Client of the vLLM embedding API.
pub struct EmbeddingClient {
    /// HTTP client with the configured timeout.
    pub http: reqwest::Client,
    /// Base URL of the service, trailing slashes stripped.
    pub base_url: String,
    /// Model that computes the embeddings.
    pub model: String,
    /// Request timeout, in seconds.
    pub timeout_secs: u64,
}

impl EmbeddingClient {
    pub fn new(base_url: &str, model: &str, timeout_secs: u64) -> (r: EmbeddingClient)
        ensures
            r.base_url@ == trim_trailing_slashes(base_url@),
            r.model@ == model@,
            r.timeout_secs == timeout_secs,
    {
        let v = chars_of(base_url);
        let mut end: usize = v.len();
        assert(v@.subrange(0, end as int) =~= v@);
        while end > 0 && v[end - 1] == '/'
            invariant
                end <= v.len(),
                v@ == base_url@,
                trim_trailing_slashes(v@) == trim_trailing_slashes(v@.subrange(0, end as int)),
            decreases end,
        {
            proof {
                assert(v@.subrange(0, end as int).drop_last() =~= v@.subrange(0, end - 1));
            }
            end = end - 1;
        }
        let mut m = String::new();
        push_str(&mut m, model);
        EmbeddingClient {
            http: http_client_with_timeout(timeout_secs),
            base_url: string_of_range(&v, 0, end),
            model: m,
            timeout_secs,
        }
    }

    /// The URL of the embeddings endpoint.
    pub fn embeddings_url(&self) -> (r: String)
        ensures
            r@ == self.base_url@ + "/v1/embeddings"@,
    {
        let mut r = String::new();
        push_str(&mut r, self.base_url.as_str());
        push_str(&mut r, "/v1/embeddings");
        r
    }

    /// The URL of the health endpoint.
    pub fn health_url(&self) -> (r: String)
        ensures
            r@ == self.base_url@ + "/health"@,
    {
        let mut r = String::new();
        push_str(&mut r, self.base_url.as_str());
        push_str(&mut r, "/health");
        r
    }
}

/// Texts embedded per request when no batch size is given.
pub const DEFAULT_BATCH_SIZE: usize = 32;

/// The embedding client with an availability flag that tasks share through its `Arc`. The
/// service starts unavailable; health checks and failures update the flag.
pub struct EmbeddingService {
    pub client: EmbeddingClient,
    /// Availability, shared through the `Arc`.
    pub available: Arc<AtomicBool>,
    /// Texts per batch request.
    pub batch_size: usize,
}

impl EmbeddingService {
    pub fn new(client: EmbeddingClient, batch_size: Option<usize>) -> (r: EmbeddingService)
        ensures
            r.client == client,
            r.batch_size == match batch_size {
                Some(n) => n,
                None => DEFAULT_BATCH_SIZE,
            },
    {
        let size = match batch_size {
            Some(n) => n,
            None => DEFAULT_BATCH_SIZE,
        };
        EmbeddingService { client, available: Arc::new(AtomicBool::new(false)), batch_size: size }
    }

    /// Whether the service is available now. The flag is shared with other
    /// threads, so nothing is stated of the answer.
    pub fn is_available(&self) -> bool {
        self.available.load(Ordering::Relaxed)
    }

    /// Sets the shared availability flag.
    pub fn set_available(&self, available: bool) {
        self.available.store(available, Ordering::Relaxed);
    }
}

/// Adds the outcome of one batch request for `chunk_len` texts to `results`:
/// each embedding when it succeeded; otherwise one `None` per text of the chunk.
/// Returns whether to go on with the next chunk.
pub fn absorb_chunk<T>(results: &mut Vec<Option<T>>, chunk_len: usize, outcome: Option<Vec<T>>) -> (r: bool)
    ensures
        r == (outcome is Some),
        match outcome {
            Some(v) => final(results)@ == old(results)@ + Seq::new(v@.len(), |i: int| Some(v@[i])),
            None => final(results)@ == old(results)@ + Seq::new(chunk_len as nat, |i: int| None::<T>),
        },
{
    match outcome {
        Some(v) => {
            let ghost vs = v@;
            let ghost start = results@;
            let mut v = v;
            let mut k: usize = 0;
            let n = v.len();
            assert(vs.skip(0) =~= vs);
            while k < n
                invariant
                    k <= n,
                    n == vs.len(),
                    v@ == vs.skip(k as int),
                    results@ == start + Seq::new(k as nat, |i: int| Some(vs[i])),
                decreases n - k,
            {
                let e = v.remove(0);
                proof {
                    assert(e == vs[k as int]);
                    assert(v@ =~= vs.skip(k + 1));
                }
                results.push(Some(e));
                proof {
                    assert(results@ =~= start + Seq::new((k + 1) as nat, |i: int| Some(vs[i])));
                }
                k = k + 1;
            }
            assert(Seq::new(n as nat, |i: int| Some(vs[i])) =~= Seq::new(vs.len(), |i: int| Some(vs[i])));
            true
        },
        None => {
            let ghost start = results@;
            let mut k: usize = 0;
            while k < chunk_len
                invariant
                    k <= chunk_len,
                    results@ == start + Seq::new(k as nat, |i: int| None::<T>),
                decreases chunk_len - k,
            {
                results.push(None);
                proof {
                    assert(results@ =~= start + Seq::new((k + 1) as nat, |i: int| None::<T>));
                }
                k = k + 1;
            }
            false
        },
    }
}

} // verus!
