//! An ordered ramp of characters, and the quantizer that picks one for a luma.
use vstd::prelude::*;

verus! {

/// Characters ordered from the bucket of the darkest luma to that of the
/// brightest. A usable ramp is non-empty.
#[derive(Debug)]
pub struct CharacterMap(pub Vec<char>);

impl View for CharacterMap {
    type V = Seq<char>;

    open spec fn view(&self) -> Seq<char> {
        self.0@
    }
}

/// The bucket of luma `v` in a ramp of `n` characters: `floor(v * n / 256)`,
/// clamped to the last bucket.
pub open spec fn bucket(v: int, n: int) -> int {
    if v * n / 256 < n - 1 {
        v * n / 256
    } else {
        n - 1
    }
}

/// The ten-step ramp from blank to dense.
pub open spec fn default_ramp() -> Seq<char> {
    seq![' ', '.', ':', '-', '=', '+', '*', '#', '%', '@']
}

/// Relies on `str::chars` (collected into a `Vec`): the characters of `s` in order.
#[verifier::external_body]
pub(crate) fn chars_of(s: &str) -> (r: Vec<char>)
    ensures
        r@ == s@,
{
    s.chars().collect()
}

impl CharacterMap {
    /// The ten-step ramp `" .:-=+*#%@"`.
    pub fn default() -> (m: CharacterMap)
        ensures
            m@ == default_ramp(),
    {
        let mut v: Vec<char> = Vec::new();
        v.push(' ');
        v.push('.');
        v.push(':');
        v.push('-');
        v.push('=');
        v.push('+');
        v.push('*');
        v.push('#');
        v.push('%');
        v.push('@');
        assert(v@ =~= default_ramp());
        CharacterMap(v)
    }

    /// The one-character ramp of a full block, `'\u{2588}'`.
    pub fn solid() -> (m: CharacterMap)
        ensures
            m@ == seq!['\u{2588}'],
    {
        let mut v: Vec<char> = Vec::new();
        v.push('\u{2588}');
        assert(v@ =~= seq!['\u{2588}']);
        CharacterMap(v)
    }

    /// The ramp made of the characters of `s`, in order.
    pub fn from(s: &str) -> (m: CharacterMap)
        ensures
            m@ == s@,
    {
        CharacterMap(chars_of(s))
    }

    /// The number of characters in the ramp.
    pub fn len(&self) -> (n: usize)
        ensures
            n == self@.len(),
    {
        self.0.len()
    }

    /// The character of the bucket that luma `luma` falls in.
    pub fn index(&self, luma: u8) -> (c: char)
        requires
            self@.len() > 0,
        ensures
            c == self@[bucket(luma as int, self@.len() as int)],
    {
        let n = self.0.len();
        proof {
            lemma_bucket_range(luma as int, n as int);
        }
        let scaled: u128 = (luma as u128) * (n as u128) / 256;
        let i: usize = if scaled < (n - 1) as u128 {
            scaled as usize
        } else {
            n - 1
        };
        self.0[i]
    }
}

proof fn lemma_bucket_range(v: int, n: int)
    requires
        0 <= v <= 255,
        n >= 1,
    ensures
        0 <= bucket(v, n) < n,
        v * n / 256 < n,
        v * n <= 255 * n,
{
    assert(0 <= v * n <= 255 * n) by (nonlinear_arith)
        requires
            0 <= v <= 255,
            n >= 1,
    ;
    assert(v * n / 256 < n) by (nonlinear_arith)
        requires
            0 <= v * n <= 255 * n,
            n >= 1,
    ;
}

/// For a ramp of `n >= 1` characters and a luma `v` in `0..=255` the bucket is
/// exactly `floor(v * n / 256)` (the clamp never acts), luma 0 falls in the
/// first bucket, and, for ramps of at most 256 characters, luma 255 falls in
/// the last one.
pub proof fn lemma_bucket_boundaries(v: int, n: int)
    requires
        0 <= v <= 255,
        n >= 1,
    ensures
        bucket(v, n) == v * n / 256,
        bucket(0, n) == 0,
        n <= 256 ==> bucket(255, n) == n - 1,
{
    lemma_bucket_range(v, n);
    lemma_bucket_range(0, n);
    lemma_bucket_range(255, n);
    if n <= 256 {
        assert(255 * n / 256 == n - 1) by (nonlinear_arith)
            requires
                1 <= n <= 256,
        ;
    }
}

/// A brighter luma never falls in an earlier bucket.
pub proof fn lemma_bucket_monotonic(v1: int, v2: int, n: int)
    requires
        0 <= v1 <= v2 <= 255,
        n >= 1,
    ensures
        bucket(v1, n) <= bucket(v2, n),
{
    assert(v1 * n <= v2 * n) by (nonlinear_arith)
        requires
            v1 <= v2,
            n >= 1,
    ;
    assert(v1 * n / 256 <= v2 * n / 256) by (nonlinear_arith)
        requires
            0 <= v1 * n <= v2 * n,
    ;
}

} // verus!
