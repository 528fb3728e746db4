//! Identifiers, and the clock that they are made from.

use std::time::Duration;
use std::time::SystemTime;
use std::time::SystemTimeError;
use vstd::prelude::*;
use vstd::string::StrSliceExecFns;
use vstd::string::StringExecFns;

verus! {

/// `std::time::SystemTime`, a reading of the clock.
#[verifier::external_type_specification]
#[verifier::external_body]
pub struct ExSystemTime(std::time::SystemTime);

/// `std::time::SystemTimeError`, which says that a reading lies before another.
#[verifier::external_type_specification]
#[verifier::external_body]
pub struct ExSystemTimeError(std::time::SystemTimeError);

/// `SystemTime::now` reads the clock; nothing is claimed of what it shows.
pub assume_specification[ std::time::SystemTime::now ]() -> std::time::SystemTime
;

/// The nanoseconds in a `Duration`.
pub uninterp spec fn duration_nanos(d: std::time::Duration) -> u128;

/// The nanoseconds from the Unix epoch to a `SystemTime`; `None` where the time
/// lies before the epoch.
pub uninterp spec fn nanos_since_epoch(t: std::time::SystemTime) -> Option<u128>;

/// `Duration::as_nanos` counts all nanoseconds of a duration.
pub assume_specification[ std::time::Duration::as_nanos ](d: &std::time::Duration) -> (r: u128)
    ensures
        r == duration_nanos(*d),
;

/// `Duration::as_secs` counts the whole seconds of a duration; what is left of
/// its nanoseconds does not count.
pub assume_specification[ std::time::Duration::as_secs ](d: &std::time::Duration) -> (r: u64)
    ensures
        r == duration_nanos(*d) / 1000000000,
;

/// `SystemTime::duration_since` measures the time from the Unix epoch to `t`, and
/// gives an error where `t` lies before the epoch.
#[verifier::external_body]
fn since_epoch(t: &SystemTime) -> (r: Result<Duration, SystemTimeError>)
    ensures
        match r {
            Ok(d) => nanos_since_epoch(*t) == Some(duration_nanos(d)),
            Err(_) => nanos_since_epoch(*t) is None,
        },
{
    t.duration_since(SystemTime::UNIX_EPOCH)
}

/// A number of nanoseconds since the Unix epoch, cut to 64 bits; 0 where there is
/// none.
pub open spec fn nanos_reading(since: Option<u128>) -> u64 {
    match since {
        Some(n) => (n % 0x1_0000_0000_0000_0000) as u64,
        None => 0,
    }
}

/// The whole seconds in a number of nanoseconds since the Unix epoch; 0 where
/// there is none.
pub open spec fn secs_reading(since: Option<u128>) -> u128 {
    match since {
        Some(n) => n / 1000000000,
        None => 0,
    }
}

/// Whether `n` is what a clock shows as nanoseconds at some time.
pub open spec fn is_clock_nanos(n: u64) -> bool {
    exists|t: SystemTime| n == nanos_reading(#[trigger] nanos_since_epoch(t))
}

/// Whether `n` is what a clock shows as seconds at some time.
pub open spec fn is_clock_secs(n: u64) -> bool {
    exists|t: SystemTime| n == secs_reading(#[trigger] nanos_since_epoch(t))
}

/// Cuts a number of nanoseconds since the Unix epoch to 64 bits; 0 where there is
/// none.
pub fn read_nanos(since: Option<u128>) -> (r: u64)
    ensures
        r == nanos_reading(since),
{
    match since {
        Some(n) => (n % 0x1_0000_0000_0000_0000) as u64,
        None => 0,
    }
}

/// The nanoseconds since the Unix epoch, cut to 64 bits; 0 on a clock that
/// stands before the epoch. Which time it is, is left to the clock.
pub(crate) fn clock_nanos() -> (r: u64)
    ensures
        is_clock_nanos(r),
{
    let t = SystemTime::now();
    match since_epoch(&t) {
        Ok(d) => read_nanos(Some(d.as_nanos())),
        Err(_) => read_nanos(None),
    }
}

/// The seconds since the Unix epoch; 0 on a clock that stands before the epoch.
/// Which time it is, is left to the clock.
pub(crate) fn clock_secs() -> (r: u64)
    ensures
        is_clock_secs(r),
{
    let t = SystemTime::now();
    match since_epoch(&t) {
        Ok(d) => d.as_secs(),
        Err(_) => 0,
    }
}

/// The characters that an identifier is written with.
pub open spec fn alphabet() -> Seq<char> {
    "abcdefghijklmnopqrstuvwxyz0123456789"@
}

/// The successor of `x` in the linear congruential sequence behind an
/// identifier.
#[verifier::opaque]
pub open spec fn scrambled(x: u64) -> u64 {
    ((x * 6364136223846793005 + 1442695040888963407) % 0x1_0000_0000_0000_0000) as u64
}

/// The `n` characters that the sequence from `x` on spells.
pub open spec fn id_chars(x: u64, n: nat) -> Seq<char>
    decreases n,
{
    if n == 0 {
        Seq::empty()
    } else {
        seq![alphabet()[(x % 36) as int]] + id_chars(scrambled(x), (n - 1) as nat)
    }
}

/// The identifier with `prefix` that is made from the number `x`.
pub open spec fn id_text(prefix: Seq<char>, x: u64) -> Seq<char> {
    prefix + "_"@ + id_chars(x, 22)
}

/// An identifier is spelled with as many characters as were asked for, each of
/// them out of the alphabet.
pub proof fn id_chars_are_spelled(x: u64, n: nat)
    ensures
        id_chars(x, n).len() == n,
        forall|i: int| 0 <= i < n ==> alphabet().contains(#[trigger] id_chars(x, n)[i]),
    decreases n,
{
    reveal_strlit("abcdefghijklmnopqrstuvwxyz0123456789");
    if n > 0 {
        let next = scrambled(x);
        id_chars_are_spelled(next, (n - 1) as nat);
        assert(alphabet().contains(alphabet()[(x % 36) as int]));
        assert forall|i: int| 0 <= i < n implies alphabet().contains(
            #[trigger] id_chars(x, n)[i],
        ) by {
            if i > 0 {
                assert(id_chars(x, n)[i] == id_chars(next, (n - 1) as nat)[i - 1]);
            }
        }
    }
}

/// Makes the successor of `x` in the sequence behind an identifier.
fn scramble(x: u64) -> (r: u64)
    ensures
        r == scrambled(x),
{
    proof {
        reveal(scrambled);
    }
    x.wrapping_mul(6364136223846793005).wrapping_add(1442695040888963407)
}

/// Spells `n` characters from the number `seed`.
pub fn spell(seed: u64, n: usize) -> (r: String)
    ensures
        r@ == id_chars(seed, n as nat),
{
    let letters = "abcdefghijklmnopqrstuvwxyz0123456789";
    let mut out = String::new();
    let mut x: u64 = seed;
    let mut left: usize = n;
    proof {
        reveal_strlit("abcdefghijklmnopqrstuvwxyz0123456789");
        assert(out@ + id_chars(x, n as nat) =~= id_chars(seed, n as nat));
    }
    while left > 0
        invariant
            letters@ == alphabet(),
            alphabet().len() == 36,
            left <= n,
            out@ + id_chars(x, left as nat) == id_chars(seed, n as nat),
        decreases left,
    {
        let ghost before = out@;
        let ghost from = x;
        out.push(letters.get_char((x % 36) as usize));
        x = scramble(x);
        proof {
            assert(out@ + id_chars(x, (left - 1) as nat) =~= before + id_chars(
                from,
                left as nat,
            ));
        }
        left = left - 1;
    }
    proof {
        assert(out@ + id_chars(x, 0) =~= out@);
    }
    out
}

/// A source of identifiers that counts those it has given out. A process has one,
/// which all its answers share.
pub struct IdSource {
    pub count: u64,
}

impl IdSource {
    /// A source that has given out nothing.
    pub fn new() -> (r: Self)
        ensures
            r.count == 0,
    {
        IdSource { count: 0 }
    }

    /// Makes the next identifier, from the clock reading `now` and the count.
    pub fn gen_id(&mut self, prefix: &str, now: u64) -> (r: String)
        ensures
            r@ == id_text(prefix@, now ^ old(self).count),
            final(self).count == (old(self).count + 1) % 0x1_0000_0000_0000_0000,
    {
        let n: u64 = now ^ self.count;
        self.count = self.count.wrapping_add(1);
        let mut out = prefix.to_string();
        out.append("_");
        let chars = spell(n, 22);
        out.append(chars.as_str());
        out
    }
}

/// Spells sixteen characters from the number `n`.
pub fn rand_id_from(n: u64) -> (r: String)
    ensures
        r@ == id_chars(n, 16),
{
    spell(n, 16)
}

/// Spells sixteen characters from a clock reading.
pub fn rand_id() -> (r: String)
    ensures
        exists|n: u64| is_clock_nanos(n) && r@ == #[trigger] id_chars(n, 16),
        r@.len() == 16,
        forall|i: int| 0 <= i < 16 ==> alphabet().contains(#[trigger] r@[i]),
{
    let n: u64 = clock_nanos();
    proof {
        id_chars_are_spelled(n, 16);
    }
    rand_id_from(n)
}

/// What the clock shows is the time: the nanoseconds, as far as 64 bits go, and
/// the whole seconds in them.
pub proof fn readings_are_the_time(n: u128)
    ensures
        n < 0x1_0000_0000_0000_0000 ==> nanos_reading(Some(n)) == n,
        (n - nanos_reading(Some(n))) % 0x1_0000_0000_0000_0000 == 0,
        secs_reading(Some(n)) * 1000000000 <= n < (secs_reading(Some(n)) + 1) * 1000000000,
        nanos_reading(None) == 0,
        secs_reading(None) == 0,
{
}

} // verus!
