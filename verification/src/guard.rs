use vstd::prelude::*;

use crate::errors::UpdateError;
use crate::numbers::dec_str;

verus! {

// The file transaction guard.
//
// The roster file has no locking primitive: the only concurrency token is
// its modification timestamp. A transaction records the timestamp
// observed before reading and re-checks it at every later checkpoint;
// any difference means a third party touched the file and the whole
// cycle must be retried. The unverified edge supplies the observed
// timestamps and performs the reads, writes and renames; every decision
// is made here.

/// A file modification timestamp, as seconds and nanoseconds since the
/// Unix epoch: the optimistic concurrency token.
#[derive(Clone, Copy, PartialEq, Eq, Structural, Debug)]
pub struct VersionToken {
    pub secs: u64,
    pub nanos: u32,
}

/// The token still holds at every checkpoint of a full cycle: after the
/// read, before the temporary write, and after it. Only then may the
/// cycle commit.
pub open spec fn cycle_commits(
    initial: VersionToken,
    post_read: VersionToken,
    pre_write: VersionToken,
    post_temp_write: VersionToken,
) -> bool {
    post_read == initial && pre_write == initial && post_temp_write == initial
}

/// An open read-checkpoint-write cycle over the roster file, carrying the
/// timestamp observed before the content was read.
pub struct TransactionGuard {
    pub token: VersionToken,
}

impl TransactionGuard {
    /// Opens a transaction from the timestamps observed before and after
    /// reading the file. A difference means the file changed during the
    /// read: the cycle fails with `Conflict` and must be retried whole.
    pub fn begin(before_read: VersionToken, after_read: VersionToken) -> (r: Result<
        TransactionGuard,
        UpdateError,
    >)
        ensures
            before_read == after_read ==> (r matches Ok(t) && t.token == before_read),
            before_read != after_read ==> (r matches Err(e) && e is Conflict),
    {
        if before_read == after_read {
            Ok(TransactionGuard { token: before_read })
        } else {
            Err(UpdateError::Conflict)
        }
    }

    /// Re-verifies the token against the currently observed timestamp.
    /// Succeeds exactly when nothing touched the file.
    pub fn checkpoint(&self, current: VersionToken) -> (r: Result<(), UpdateError>)
        ensures
            r is Ok <==> current == self.token,
            r matches Err(e) ==> e is Conflict,
    {
        if current == self.token {
            Ok(())
        } else {
            Err(UpdateError::Conflict)
        }
    }

    /// The backup name the original file is renamed to on commit: the
    /// file's path stamped with the captured timestamp's seconds, so that
    /// repeated attempts never collide on the backup name.
    pub fn backup_file_name(&self, path: &str) -> (r: String)
        ensures
            r@ == backup_name(path@, self.token.secs),
    {
        let r = String::from_str(path).concat(".backup_").concat(
            crate::numbers::u64_to_string(self.token.secs).as_str(),
        );
        proof {
            assert(r@ == backup_name(path@, self.token.secs));
        }
        r
    }
}

/// The backup file name: the path, ".backup_", and the decimal seconds of
/// the captured timestamp.
pub open spec fn backup_name(path: Seq<char>, secs: u64) -> Seq<char> {
    path + ".backup_"@ + dec_str(secs as nat)
}

/// Conflict detection: if any checkpoint of the cycle observes a
/// timestamp other than the one captured before the read, the cycle does
/// not commit.
pub proof fn lemma_conflict_detected(
    initial: VersionToken,
    post_read: VersionToken,
    pre_write: VersionToken,
    post_temp_write: VersionToken,
)
    requires
        post_read != initial || pre_write != initial || post_temp_write != initial,
    ensures
        !cycle_commits(initial, post_read, pre_write, post_temp_write),
{
}

// Temporary file names.

/// `c` as a base-36 digit: '0' ..= '9' then 'a' ..= 'z'.
pub open spec fn base36_digit_char(d: nat) -> char
    recommends
        d < 36,
{
    if d < 10 {
        ((48 + d) as u8) as char
    } else {
        ((87 + d) as u8) as char
    }
}

/// The base-36 representation of `n`, lowercase, most significant digit
/// first, no leading zeros, "0" for zero.
pub open spec fn base36_str(n: nat) -> Seq<char>
    decreases n,
{
    if n < 36 {
        seq![base36_digit_char(n)]
    } else {
        base36_str(n / 36).push(base36_digit_char(n % 36))
    }
}

/// Relies on radix_fmt::radix with base 36: positional notation, most
/// significant digit first, no leading zeros, lowercase letter digits,
/// "0" for zero.
#[verifier::external_body]
fn format_base36(n: u64) -> (r: String)
    ensures
        r@ == base36_str(n as nat),
{
    radix_fmt::radix(n, 36).to_string()
}

/// Relies on rand::random: draws an arbitrary unsigned 64-bit number;
/// nothing is promised of the value.
#[verifier::external_body]
fn random_u64() -> u64 {
    rand::random::<u64>()
}

/// The temporary sibling file name for `suffix`: the path, a dot, and the
/// suffix in base 36.
pub open spec fn temp_name(path: Seq<char>, suffix: u64) -> Seq<char> {
    path + "."@ + base36_str(suffix as nat)
}

/// The name of the temporary sibling file for a given suffix.
pub fn temp_file_name(path: &str, suffix: u64) -> (r: String)
    ensures
        r@ == temp_name(path@, suffix),
{
    let r = String::from_str(path).concat(".").concat(format_base36(suffix).as_str());
    proof {
        assert(r@ == temp_name(path@, suffix));
    }
    r
}

/// The name of a temporary sibling file with a random suffix, drawn anew
/// on every call to avoid collision with concurrent writers.
pub fn fresh_temp_file_name(path: &str) -> (r: String)
    ensures
        exists|suffix: u64| r@ == temp_name(path@, suffix),
{
    let suffix = random_u64();
    let r = temp_file_name(path, suffix);
    proof {
        assert(r@ == temp_name(path@, suffix));
    }
    r
}

} // verus!
