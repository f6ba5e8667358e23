//! A byte buffer that is pinned against swapping where the system allows it,
//! and erased before its memory is unpinned and released.

use vstd::prelude::*;
use vstd::string::*;

use crate::error::{ErrorKind, SignerError};
use crate::memory::{ordering_fence, pin_pages, unpin_pages, wipe_bytes, wipe_vec, zero_bytes, zeroed};

verus! {

/// What to do when memory cannot be pinned.
#[derive(Debug, Clone, Copy, PartialEq, Eq, Structural)]
pub enum LockingMode {
    /// Creation fails unless the memory is pinned.
    Strict,
    /// Creation succeeds either way; the buffer records the outcome.
    Permissive,
}

/// A setting that asks for `Permissive`: `1`, or `true` in any case.
pub open spec fn allows_insecure(setting: Seq<char>) -> bool {
    setting == seq!['1'] || (setting.len() == 4 && (setting[0] == 't' || setting[0] == 'T') && (setting[1] == 'r'
        || setting[1] == 'R') && (setting[2] == 'u' || setting[2] == 'U') && (setting[3] == 'e' || setting[3]
        == 'E'))
}

impl LockingMode {
    /// The policy that a process-wide setting (for instance an environment
    /// variable) selects: `Permissive` for `1` or `true` (any case),
    /// `Strict` for anything else and for no setting.
    pub fn from_setting(setting: Option<&str>) -> (mode: LockingMode)
        ensures
            mode == (if setting matches Some(s) && allows_insecure(s@) {
                LockingMode::Permissive
            } else {
                LockingMode::Strict
            }),
    {
        let s = match setting {
            Some(s) => s,
            None => return LockingMode::Strict,
        };
        let n = s.unicode_len();
        if n == 1 && s.get_char(0) == '1' {
            proof {
                assert(s@ =~= seq!['1']);
            }
            return LockingMode::Permissive;
        }
        if n == 4 {
            let a = s.get_char(0);
            let b = s.get_char(1);
            let c = s.get_char(2);
            let d = s.get_char(3);
            if (a == 't' || a == 'T') && (b == 'r' || b == 'R') && (c == 'u' || c == 'U') && (d == 'e' || d == 'E') {
                return LockingMode::Permissive;
            }
        }
        proof {
            if n == 1 {
                assert(s@ != seq!['1'] || s@[0] == '1');
            }
        }
        LockingMode::Strict
    }
}

/// A buffer for secret bytes.
///
/// Its contents are only reachable through `as_slice` and `as_mut_slice`;
/// `debug_string` shows the length and the pin state, never a byte. Every
/// region it gives up (on drop, on growth, on truncation) is erased first.
pub struct SecureBuffer {
    data: Vec<u8>,
    is_locked: bool,
}

impl View for SecureBuffer {
    type V = Seq<u8>;

    closed spec fn view(&self) -> Seq<u8> {
        self.data@
    }
}

impl SecureBuffer {
    /// Whether the buffer's memory is pinned.
    pub closed spec fn locked(&self) -> bool {
        self.is_locked
    }

    /// Create a zero-filled buffer of `capacity` bytes whose memory must be pinned.
    pub fn new(capacity: usize) -> (r: Result<SecureBuffer, SignerError>)
        ensures
            match r {
                Ok(b) => b@ == zeroed(capacity as nat) && b.locked(),
                Err(e) => e.spec_kind() == ErrorKind::MemoryLockFailed,
            },
            capacity == 0 ==> r is Ok,
    {
        Self::with_mode(capacity, LockingMode::Strict)
    }

    /// Create a zero-filled buffer of `capacity` bytes and try to pin it.
    /// Under `Strict` a refused pin is an error; under `Permissive` the buffer
    /// is returned unpinned.
    pub fn with_mode(capacity: usize, mode: LockingMode) -> (r: Result<SecureBuffer, SignerError>)
        ensures
            match r {
                Ok(b) => {
                    &&& b@ == zeroed(capacity as nat)
                    &&& mode == LockingMode::Strict ==> b.locked()
                    &&& capacity == 0 ==> b.locked()
                },
                Err(e) => mode == LockingMode::Strict && e.spec_kind() == ErrorKind::MemoryLockFailed,
            },
            mode == LockingMode::Permissive ==> r is Ok,
            capacity == 0 ==> r is Ok,
    {
        let data = zero_bytes(capacity);
        let locked = lock_memory(&data);
        if mode == LockingMode::Strict && !locked {
            return Err(
                SignerError::MemoryLockFailed(
                    "mlock failed - memory may be swapped to disk. Check ulimit -l or run with CAP_IPC_LOCK capability.".to_owned(),
                ),
            );
        }
        Ok(SecureBuffer { data, is_locked: locked })
    }

    /// Create a zero-filled buffer that may stay unpinned.
    pub fn new_permissive(capacity: usize) -> (r: Result<SecureBuffer, SignerError>)
        ensures
            r matches Ok(b) && b@ == zeroed(capacity as nat),
    {
        Self::with_mode(capacity, LockingMode::Permissive)
    }

    /// Copy `source` into a new buffer whose memory must be pinned. The
    /// caller still owns `source` and erases it.
    pub fn from_slice(source: &[u8]) -> (r: Result<SecureBuffer, SignerError>)
        ensures
            match r {
                Ok(b) => b@ == source@ && b.locked(),
                Err(e) => e.spec_kind() == ErrorKind::MemoryLockFailed,
            },
            source@.len() == 0 ==> r is Ok,
    {
        Self::from_slice_with_mode(source, LockingMode::Strict)
    }

    /// Copy `source` into a new buffer under the given policy.
    pub fn from_slice_with_mode(source: &[u8], mode: LockingMode) -> (r: Result<SecureBuffer, SignerError>)
        ensures
            match r {
                Ok(b) => b@ == source@ && (mode == LockingMode::Strict ==> b.locked()),
                Err(e) => mode == LockingMode::Strict && e.spec_kind() == ErrorKind::MemoryLockFailed,
            },
            mode == LockingMode::Permissive ==> r is Ok,
            source@.len() == 0 ==> r is Ok,
    {
        let mut buffer = match Self::with_mode(source.len(), mode) {
            Ok(b) => b,
            Err(e) => return Err(e),
        };
        let n = source.len();
        let mut i: usize = 0;
        while i < n
            invariant
                n == source@.len(),
                buffer.data@.len() == n,
                i <= n,
                forall|j: int| 0 <= j < i ==> buffer.data@[j] == source@[j],
                mode == LockingMode::Strict ==> buffer.is_locked,
            decreases n - i,
        {
            buffer.data.set(i, source[i]);
            i = i + 1;
        }
        assert(buffer.data@ =~= source@);
        Ok(buffer)
    }

    /// Copy `source` into a new buffer that may stay unpinned.
    pub fn from_slice_permissive(source: &[u8]) -> (r: Result<SecureBuffer, SignerError>)
        ensures
            r matches Ok(b) && b@ == source@,
    {
        Self::from_slice_with_mode(source, LockingMode::Permissive)
    }

    pub fn len(&self) -> (n: usize)
        ensures
            n == self@.len(),
    {
        self.data.len()
    }

    pub fn is_empty(&self) -> (b: bool)
        ensures
            b == (self@.len() == 0),
    {
        self.data.len() == 0
    }

    pub fn is_locked(&self) -> (b: bool)
        ensures
            b == self.locked(),
    {
        self.is_locked
    }

    /// The contents. Do not copy them out of the borrow's scope.
    pub fn as_slice(&self) -> (s: &[u8])
        ensures
            s@ == self@,
    {
        self.data.as_slice()
    }

    /// The contents, for writing in place.
    pub fn as_mut_slice(&mut self) -> (s: &mut [u8])
        ensures
            s@ == old(self)@,
            final(s)@ == final(self)@,
            final(self).locked() == old(self).locked(),
    {
        self.data.as_mut_slice()
    }

    /// Overwrite every byte with zero. The length and pin state are kept.
    pub fn zeroize(&mut self)
        ensures
            final(self)@ == zeroed(old(self)@.len()),
            final(self).locked() == old(self).locked(),
    {
        wipe_vec(&mut self.data);
        ordering_fence();
    }

    /// Resize under the `Strict` policy.
    pub fn resize(&mut self, new_len: usize) -> (r: Result<(), SignerError>)
        ensures
            r is Ok ==> final(self)@ == resized(old(self)@, new_len as nat),
            r is Ok && new_len > old(self)@.len() ==> final(self).locked(),
            r is Ok && new_len <= old(self)@.len() ==> final(self).locked() == old(self).locked(),
            r matches Err(e) ==> {
                &&& new_len > old(self)@.len()
                &&& e.spec_kind() == ErrorKind::MemoryLockFailed
                &&& final(self)@ == old(self)@
                &&& final(self).locked() == old(self).locked()
            },
            new_len <= old(self)@.len() ==> r is Ok,
    {
        self.resize_with_mode(new_len, LockingMode::Strict)
    }

    /// Resize under the given policy. Growing pins a fresh region first and
    /// leaves the buffer untouched when `Strict` and the pin is refused; then
    /// the contents move over and the old region is erased, unpinned and
    /// released. Shrinking erases the cut tail and truncates in place.
    pub fn resize_with_mode(&mut self, new_len: usize, mode: LockingMode) -> (r: Result<(), SignerError>)
        ensures
            r is Ok ==> final(self)@ == resized(old(self)@, new_len as nat),
            r is Ok && new_len > old(self)@.len() && mode == LockingMode::Strict ==> final(self).locked(),
            r is Ok && new_len <= old(self)@.len() ==> final(self).locked() == old(self).locked(),
            r matches Err(e) ==> {
                &&& mode == LockingMode::Strict
                &&& new_len > old(self)@.len()
                &&& e.spec_kind() == ErrorKind::MemoryLockFailed
                &&& final(self)@ == old(self)@
                &&& final(self).locked() == old(self).locked()
            },
            mode == LockingMode::Permissive || new_len <= old(self)@.len() ==> r is Ok,
    {
        let old_len = self.data.len();
        if new_len > old_len {
            let mut fresh = zero_bytes(new_len);
            let fresh_locked = lock_memory(&fresh);
            if mode == LockingMode::Strict && !fresh_locked {
                return Err(SignerError::MemoryLockFailed("mlock failed on resized buffer".to_owned()));
            }
            let mut i: usize = 0;
            while i < old_len
                invariant
                    old_len == self.data@.len(),
                    old_len < new_len,
                    fresh@.len() == new_len,
                    i <= old_len,
                    forall|j: int| 0 <= j < i ==> fresh@[j] == self.data@[j],
                    forall|j: int| old_len <= j < new_len ==> fresh@[j] == 0u8,
                decreases old_len - i,
            {
                fresh.set(i, self.data[i]);
                i = i + 1;
            }
            assert(fresh@ =~= resized(self.data@, new_len as nat));
            self.release_pages();
            self.data = fresh;
            self.is_locked = fresh_locked;
        } else {
            let tail_start = new_len;
            {
                let (_kept, tail) = self.data.as_mut_slice().split_at_mut(tail_start);
                wipe_bytes(tail);
            }
            ordering_fence();
            self.data.truncate(new_len);
            assert(self.data@ =~= resized(old(self)@, new_len as nat));
        }
        Ok(())
    }

    /// Erase the contents, then release the pin. Every exit path of a
    /// buffer's memory goes through here.
    fn release_pages(&mut self)
        ensures
            final(self)@ == zeroed(old(self)@.len()),
            !final(self).locked(),
        opens_invariants none
        no_unwind
    {
        wipe_vec(&mut self.data);
        ordering_fence();
        if self.is_locked {
            unpin_pages(&self.data);
        }
        self.is_locked = false;
    }

    /// A rendering for logs: the length and pin state, never a byte.
    pub fn debug_string(&self) -> (s: String)
        ensures
            s@ == redacted_rendering(self@.len(), self.locked()),
    {
        let mut s = "SecureBuffer { len: ".to_owned();
        push_decimal(&mut s, self.data.len());
        s.append(", is_locked: ");
        if self.is_locked {
            s.append("true");
        } else {
            s.append("false");
        }
        s.append(", data: \"[REDACTED]\" }");
        s
    }
}

impl Drop for SecureBuffer {
    fn drop(&mut self)
        opens_invariants none
        no_unwind
    {
        self.release_pages();
    }
}

/// The contents after resizing `s` to `n` bytes: cut, or padded with zeros.
pub open spec fn resized(s: Seq<u8>, n: nat) -> Seq<u8> {
    if n <= s.len() {
        s.subrange(0, n as int)
    } else {
        s + zeroed((n - s.len()) as nat)
    }
}

/// Decimal digits of `n`, most significant first.
pub open spec fn decimal(n: nat) -> Seq<char>
    decreases n,
{
    if n < 10 {
        seq![digit_char(n)]
    } else {
        decimal(n / 10) + seq![digit_char(n % 10)]
    }
}

pub open spec fn digit_char(d: nat) -> char {
    if d == 0 { '0' }
    else if d == 1 { '1' }
    else if d == 2 { '2' }
    else if d == 3 { '3' }
    else if d == 4 { '4' }
    else if d == 5 { '5' }
    else if d == 6 { '6' }
    else if d == 7 { '7' }
    else if d == 8 { '8' }
    else { '9' }
}

/// What `debug_string` shows: a function of the length and pin state alone.
pub open spec fn redacted_rendering(len: nat, locked: bool) -> Seq<char> {
    "SecureBuffer { len: "@ + decimal(len) + ", is_locked: "@ + (if locked { "true"@ } else { "false"@ })
        + ", data: \"[REDACTED]\" }"@
}

/// Append the decimal digits of `n` to `s`.
pub fn push_decimal(s: &mut String, n: usize)
    ensures
        final(s)@ == old(s)@ + decimal(n as nat),
    decreases n,
{
    if n >= 10 {
        push_decimal(s, n / 10);
    }
    let d = n % 10;
    let digit = if d == 0 { "0" }
        else if d == 1 { "1" }
        else if d == 2 { "2" }
        else if d == 3 { "3" }
        else if d == 4 { "4" }
        else if d == 5 { "5" }
        else if d == 6 { "6" }
        else if d == 7 { "7" }
        else if d == 8 { "8" }
        else { "9" };
    proof {
        reveal_strlit("0");
        reveal_strlit("1");
        reveal_strlit("2");
        reveal_strlit("3");
        reveal_strlit("4");
        reveal_strlit("5");
        reveal_strlit("6");
        reveal_strlit("7");
        reveal_strlit("8");
        reveal_strlit("9");
    }
    s.append(digit);
    proof {
        assert(digit@ =~= seq![digit_char(d as nat)]);
    }
}

/// Ask the system to pin `data`; an empty region counts as pinned.
fn lock_memory(data: &Vec<u8>) -> (locked: bool)
    ensures
        data@.len() == 0 ==> locked,
{
    if data.len() == 0 {
        return true;
    }
    pin_pages(data)
}

/// Zeroes a borrowed region when it goes out of scope, whether or not it
/// belongs to a `SecureBuffer`.
pub struct SecureGuard<'a> {
    data: &'a mut [u8],
}

impl<'a> View for SecureGuard<'a> {
    type V = Seq<u8>;

    closed spec fn view(&self) -> Seq<u8> {
        self.data@
    }
}

impl<'a> SecureGuard<'a> {
    /// Guard `data` until the guard is dropped.
    pub fn new(data: &'a mut [u8]) -> (g: SecureGuard<'a>)
        ensures
            g@ == old(data)@,
    {
        SecureGuard { data }
    }

    pub fn as_slice(&self) -> (s: &[u8])
        ensures
            s@ == self@,
    {
        &*self.data
    }

    pub fn as_mut_slice(&mut self) -> (s: &mut [u8])
        ensures
            s@ == old(self)@,
            final(s)@ == final(self)@,
    {
        &mut *self.data
    }

    /// Overwrite the guarded bytes with zero now.
    pub fn zeroize(&mut self)
        ensures
            final(self)@ == zeroed(old(self)@.len()),
        opens_invariants none
        no_unwind
    {
        wipe_bytes(&mut *self.data);
        ordering_fence();
    }
}

impl<'a> Drop for SecureGuard<'a> {
    fn drop(&mut self)
        opens_invariants none
        no_unwind
    {
        self.zeroize();
    }
}

} // verus!
