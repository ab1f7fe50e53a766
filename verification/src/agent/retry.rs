use vstd::prelude::*;
use crate::llm::LlmError;

verus! {

/// Retry only connection-phase failures: transport errors, 429 and 5xx.
/// Mid-stream failures are not retryable (partial output may already exist).
pub fn is_retryable(err: &LlmError) -> (r: bool)
    ensures
        r == match err {
            LlmError::Http(_) => true,
            LlmError::Api { status, .. } => *status == 429 || *status >= 500,
            _ => false,
        },
{
    match err {
        LlmError::Http(_) => true,
        LlmError::Api { status, .. } => *status == 429 || *status >= 500,
        _ => false,
    }
}

/// Milliseconds of the current time past the last whole second.
#[verifier::external_body]
fn clock_subsec_millis() -> (r: u64)
    ensures
        r < 1000,
{
    std::time::SystemTime::now()
        .duration_since(std::time::UNIX_EPOCH)
        .map(|d| d.subsec_millis() as u64)
        .unwrap_or(0)
}

/// The delay before retry `i` (0-based), in milliseconds: `1000 << min(i, 5)` plus
/// a jitter below 500.
pub open spec fn base_delay_ms(i: nat) -> nat {
    if i >= 5 {
        32000
    } else {
        vstd::arithmetic::power2::pow2(i) * 1000
    }
}

/// Exponential backoff with jitter: 1s, 2s, 4s, ... (one entry per retry), in
/// milliseconds.
pub fn backoff_delays(max_retries: usize) -> (r: Vec<u64>)
    ensures
        r@.len() == max_retries,
        forall|i: int| 0 <= i < max_retries ==> base_delay_ms(i as nat) <= #[trigger] r@[i] < base_delay_ms(i as nat) + 500,
{
    let mut out: Vec<u64> = Vec::new();
    let mut i: usize = 0;
    let mut base: u64 = 1000;
    proof {
        vstd::arithmetic::power2::lemma2_to64();
    }
    while i < max_retries
        invariant
            i <= max_retries,
            out@.len() == i,
            base == base_delay_ms(i as nat),
            forall|j: int| 0 <= j < i ==> base_delay_ms(j as nat) <= #[trigger] out@[j] < base_delay_ms(j as nat) + 500,
        decreases max_retries - i,
    {
        let jitter = clock_subsec_millis() % 500;
        out.push(base + jitter);
        proof {
            vstd::arithmetic::power2::lemma2_to64();
            vstd::arithmetic::power2::lemma_pow2_unfold((i + 1) as nat);
        }
        if i < 5 {
            base = base * 2;
        }
        i = i + 1;
    }
    out
}

} // verus!
