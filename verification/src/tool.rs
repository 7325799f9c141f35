//! Decisions of the engine-binary fetcher: whether to resume a transfer
//! with a ranged request, what fraction a byte count amounts to, and
//! what to do with a finished file destined for the plugin directory.

use vstd::prelude::*;

verus! {

use crate::text::ascii_of;
use crate::text::lit_bytes;
use crate::text::min_nat;
use vstd::string::is_ascii;
use vstd::string::StringSliceAdditionalSpecFns;

/// Whether `p` ends `s`.
pub open spec fn has_suffix(s: Seq<u8>, p: Seq<u8>) -> bool {
    p.len() <= s.len() && s.subrange(s.len() - p.len(), s.len() as int) == p
}

/// Executable suffix test.
pub fn ends_with(s: &[u8], p: &[u8]) -> (r: bool)
    ensures
        r == has_suffix(s@, p@),
{
    if p.len() > s.len() {
        return false;
    }
    let base = s.len() - p.len();
    let mut i: usize = 0;
    while i < p.len()
        invariant
            0 <= i <= p@.len() <= s@.len(),
            s@.len() <= usize::MAX,
            base == s@.len() - p@.len(),
            forall|k: int| 0 <= k < i ==> s@[base + k] == p@[k],
        decreases p.len() - i,
    {
        proof {
            assert(base + i < s@.len());
        }
        let j = base + i;
        if s[j] != p[i] {
            proof {
                assert(s@.subrange(s@.len() - p@.len(), s@.len() as int)[i as int] != p@[i as int]);
            }
            return false;
        }
        i = i + 1;
    }
    proof {
        assert(s@.subrange(s@.len() - p@.len(), s@.len() as int) =~= p@);
    }
    true
}

/// What to do with a downloaded file bound for the plugin directory.
#[derive(Clone, Copy, Debug, PartialEq, Eq, Structural)]
pub enum PluginAction {
    /// A zip archive: extract it into the plugin directory.
    ExtractArchive,
    /// A Windows binary: copy it into the plugin directory.
    CopyBinary,
    /// Anything else is left where it is.
    Leave,
}

/// What a finished download's file name calls for: archives are
/// extracted, Windows binaries copied, anything else left alone.
pub open spec fn spec_plugin_action(name: Seq<u8>) -> PluginAction {
    if has_suffix(name, ascii_of(".zip"@)) {
        PluginAction::ExtractArchive
    } else if has_suffix(name, ascii_of(".exe"@)) {
        PluginAction::CopyBinary
    } else {
        PluginAction::Leave
    }
}

/// Decide what to do with a finished download from its file name.
pub fn plugin_action(file_name: &str) -> (r: PluginAction)
    ensures
        r == spec_plugin_action(file_name.spec_bytes()),
{
    proof {
        reveal_strlit(".zip");
        reveal_strlit(".exe");
        assert(is_ascii(".zip"));
        assert(is_ascii(".exe"));
    }
    let b = file_name.as_bytes();
    if ends_with(b, lit_bytes(".zip")) {
        PluginAction::ExtractArchive
    } else if ends_with(b, lit_bytes(".exe")) {
        PluginAction::CopyBinary
    } else {
        PluginAction::Leave
    }
}

/// The fraction that `written` of `total` bytes amounts to, in
/// millionths of one whole; an unknown total reads as no progress, and
/// the value saturates at the largest 64-bit value.
pub open spec fn spec_download_fraction(written: nat, total: nat) -> nat {
    if total == 0 {
        0
    } else {
        min_nat(written * 1000000 / total, u64::MAX as nat)
    }
}

/// The progress fraction of a transfer, in millionths of one whole.
pub fn download_fraction(written: usize, total: usize) -> (r: u64)
    ensures
        r as nat == spec_download_fraction(written as nat, total as nat),
{
    if total == 0 {
        return 0;
    }
    proof {
        vstd::arithmetic::mul::lemma_mul_upper_bound(
            written as int,
            u64::MAX as int,
            1000000,
            1000000,
        );
    }
    let wide: u128 = (written as u128) * 1000000 / (total as u128);
    if wide > u64::MAX as u128 {
        u64::MAX
    } else {
        wide as u64
    }
}

/// Whether a transfer asks the server for a byte range: a partial file
/// resumes from its length, and a fresh transfer still short of the full
/// length also starts ranged, as the fetcher has always requested.
pub fn needs_range_request(start_bytes: usize, content_length: usize) -> (r: bool)
    ensures
        r == (start_bytes > 0 || start_bytes < content_length),
{
    start_bytes > 0 || start_bytes < content_length
}

} // verus!
