//! ATA devices and helpers for the words of ATA replies.

use vstd::prelude::*;
use crate::text::span_string;

verus! {

/// A device that ATA commands are sent to.
#[derive(Debug)]
pub struct ATADevice<T> {
    device: T,
}

impl<T> ATADevice<T> {
    /// The device that commands go to.
    pub closed spec fn inner(&self) -> T {
        self.device
    }

    /// Wraps `device`.
    pub fn new(device: T) -> (r: Self)
        ensures
            r.inner() == device,
    {
        Self { device }
    }

    /// The device that commands go to.
    pub fn device(&self) -> (r: &T)
        ensures
            *r == self.inner(),
    {
        &self.device
    }
}

/// Whether bit `bit` of `word` is set.
pub fn is_set(word: u16, bit: u16) -> (r: bool)
    requires
        bit < 16,
    ensures
        r == (word & (1u16 << bit) != 0),
{
    word & (1u16 << bit) != 0
}

/// The characters that words `start` to `fin` of `arr` hold, two per word,
/// high byte first.
pub open spec fn word_chars(arr: Seq<u16>, start: int, fin: int) -> Seq<char> {
    Seq::new(
        (2 * (fin - start + 1)) as nat,
        |k: int|
            if k % 2 == 0 {
                ((arr[start + k / 2] >> 8) as u8) as char
            } else {
                ((arr[start + k / 2] & 0xff) as u8) as char
            },
    )
}

/// Whether `c`, a character below 256, is white space.
pub open spec fn is_space(c: char) -> bool {
    c == '\t' || c == '\n' || c == '\x0b' || c == '\x0c' || c == '\r' || c == ' ' || c == '\u{85}'
        || c == '\u{a0}'
}

/// The index of the first character from `i` on that is not white space,
/// or the length of `s`.
pub open spec fn lead(s: Seq<char>, i: int) -> int
    decreases s.len() - i,
{
    if i < 0 || i >= s.len() {
        s.len() as int
    } else if is_space(s[i]) {
        lead(s, i + 1)
    } else {
        i
    }
}

/// One past the last character before `j` that is not white space, or 0.
pub open spec fn trail(s: Seq<char>, j: int) -> int
    decreases j,
{
    if j <= 0 || j > s.len() {
        0
    } else if is_space(s[j - 1]) {
        trail(s, j - 1)
    } else {
        j
    }
}

/// `s` without white space at either end.
pub open spec fn trimmed(s: Seq<char>) -> Seq<char> {
    if lead(s, 0) >= s.len() {
        seq![]
    } else {
        s.subrange(lead(s, 0), trail(s, s.len() as int))
    }
}

proof fn lemma_lead(s: Seq<char>, i: int)
    requires
        0 <= i <= s.len(),
    ensures
        i <= lead(s, i) <= s.len(),
    decreases s.len() - i,
{
    if i < s.len() && is_space(s[i]) {
        lemma_lead(s, i + 1);
    }
}

proof fn lemma_trail(s: Seq<char>, j: int, i: int)
    requires
        0 <= i <= j <= s.len(),
        i < s.len() && !is_space(s[i]),
        i < j,
    ensures
        i < trail(s, j) <= j,
    decreases j,
{
    if is_space(s[j - 1]) {
        lemma_trail(s, j - 1, i);
    }
}

fn space(c: char) -> (r: bool)
    ensures
        r == is_space(c),
{
    c == '\t' || c == '\n' || c == '\x0b' || c == '\x0c' || c == '\r' || c == ' ' || c == '\u{85}' || c == '\u{a0}'
}

/// The text that words `start` to `fin` of an IDENTIFY DEVICE reply hold,
/// two characters per word, high byte first, without white space at
/// either end.
pub fn read_string(arr: &Vec<u16>, start: usize, fin: usize) -> (r: String)
    requires
        start <= fin < arr@.len(),
    ensures
        r@ == trimmed(word_chars(arr@, start as int, fin as int)),
{
    let ghost want = word_chars(arr@, start as int, fin as int);
    let len = arr.len();
    let mut output: Vec<char> = Vec::new();
    let mut i: usize = start;
    while i <= fin
        invariant
            len == arr@.len(),
            start <= i <= fin + 1,
            fin < len,
            want == word_chars(arr@, start as int, fin as int),
            output@ == want.take(2 * (i - start)),
        decreases fin + 1 - i,
    {
        let ghost before = output@;
        let ghost m = (i - start) as int;
        output.push(((arr[i] >> 8) as u8) as char);
        output.push(((arr[i] & 0xff) as u8) as char);
        proof {
            assert((2 * m) / 2 == m && (2 * m) % 2 == 0);
            assert((2 * m + 1) / 2 == m && (2 * m + 1) % 2 == 1);
            assert(want[2 * m] == ((arr@[i as int] >> 8) as u8) as char);
            assert(want[2 * m + 1] == ((arr@[i as int] & 0xff) as u8) as char);
            assert(output@ =~= want.take(2 * m + 2));
        }
        i += 1;
    }
    proof {
        assert(output@ =~= want);
        lemma_lead(want, 0);
    }
    let n = output.len();
    let mut a: usize = 0;
    while a < n && space(output[a])
        invariant
            a <= n,
            n == want.len(),
            output@ == want,
            lead(want, a as int) == lead(want, 0),
        decreases n - a,
    {
        a += 1;
    }
    if a == n {
        return span_string(&output, 0, 0);
    }
    let mut b: usize = n;
    proof {
        lemma_trail(want, n as int, a as int);
    }
    while b > a && space(output[b - 1])
        invariant
            a < n,
            a < b <= n,
            n == want.len(),
            output@ == want,
            !is_space(want[a as int]),
            trail(want, b as int) == trail(want, n as int),
        decreases b,
    {
        b -= 1;
    }
    let r = span_string(&output, a, b);
    proof {
        assert(r@ == trimmed(want));
    }
    r
}

} // verus!
