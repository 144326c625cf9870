//! The per-session configuration snapshot and the parser for its
//! `KEY=value` text form.

use vstd::prelude::*;
use vstd::string::StringSliceAdditionalSpecFns;

verus! {

/// A configuration snapshot, supplied once per game session and immutable for
/// that session. `tiles` is the grid size in cells; `tick_ms` the simulation
/// step interval in whole milliseconds. The remaining fields (pixel sizes and
/// colors) only matter to a renderer; the rule engine carries them through.
#[derive(Clone, Copy, Debug)]
pub struct Config {
    pub tiles: (u16, u16),
    pub tile_size: (u16, u16),
    pub bg_color: (u8, u8, u8),
    pub snake_color: (u8, u8, u8),
    pub food_color: (u8, u8, u8),
    pub text_color: (u8, u8, u8),
    pub padding: u16,
    pub tick_ms: u32,
}

impl Config {
    /// A configuration a session can be built on. The spawn layout is fixed:
    /// the snake starts on cells (1,1)..(3,1) and the food on (5,5), and food
    /// is only ever placed strictly inside the outer ring of tiles, so (5,5)
    /// must be interior: both dimensions must be at least 7. A tick interval
    /// of zero would fire a move on every frame, so it is rejected as well.
    pub open spec fn wf(self) -> bool {
        &&& self.tiles.0 >= 7
        &&& self.tiles.1 >= 7
        &&& self.tick_ms >= 1
    }

    /// Runtime check of `wf`, for hosts that load a configuration from
    /// outside and must reject a bad one before creating a session.
    pub fn is_valid(&self) -> (r: bool)
        ensures
            r == self.wf(),
    {
        self.tiles.0 >= 7 && self.tiles.1 >= 7 && self.tick_ms >= 1
    }
}

/// The defaults that an empty configuration text yields: a 12x12 grid of
/// 64-pixel tiles and a 150 ms tick.
pub open spec fn default_config() -> Config {
    Config {
        tiles: (12u16, 12u16),
        tile_size: (64u16, 64u16),
        bg_color: (0u8, 0u8, 0u8),
        snake_color: (127u8, 127u8, 127u8),
        food_color: (255u8, 255u8, 255u8),
        text_color: (255u8, 255u8, 127u8),
        padding: 8u16,
        tick_ms: 150u32,
    }
}

/// ASCII whitespace, as `str::trim` removes it (space and the control
/// whitespace characters tab through carriage return).
pub open spec fn is_space(b: u8) -> bool {
    b == 32 || (9 <= b && b <= 13)
}

/// ASCII decimal digit.
pub open spec fn is_digit(b: u8) -> bool {
    48 <= b && b <= 57
}

/// The numeric value of a digit byte.
pub open spec fn digit_val(b: u8) -> int {
    b - 48
}

/// The value of a byte sequence read as a decimal numeral, most significant
/// digit first.
pub open spec fn digits_val(s: Seq<u8>) -> int
    decreases s.len(),
{
    if s.len() == 0 {
        0
    } else {
        digits_val(s.drop_last()) * 10 + digit_val(s.last())
    }
}

/// A nonempty, all-digit byte sequence: exactly what parses as a number.
pub open spec fn all_digits(s: Seq<u8>) -> bool {
    s.len() > 0 && forall|i: int| 0 <= i < s.len() ==> is_digit(#[trigger] s[i])
}

/// `s` with leading and trailing whitespace removed.
pub open spec fn trim_spec(s: Seq<u8>) -> Seq<u8>
    decreases s.len(),
{
    if s.len() == 0 {
        s
    } else if is_space(s[0]) {
        trim_spec(s.drop_first())
    } else if is_space(s.last()) {
        trim_spec(s.drop_last())
    } else {
        s
    }
}

/// The index of the first occurrence of `b` in `s`, or `s.len()` if none.
pub open spec fn first_byte(s: Seq<u8>, b: u8) -> int
    decreases s.len(),
{
    if s.len() == 0 {
        0
    } else if s[0] == b {
        0
    } else {
        1 + first_byte(s.drop_first(), b)
    }
}

/// Any index with no `b` before it and `b` (or the end) at it is
/// `first_byte`.
pub proof fn lemma_first_byte_is(s: Seq<u8>, b: u8, k: int)
    requires
        0 <= k <= s.len(),
        forall|i: int| 0 <= i < k ==> s[i] != b,
        k < s.len() ==> s[k] == b,
    ensures
        first_byte(s, b) == k,
    decreases s.len(),
{
    if s.len() == 0 {
    } else if s[0] == b {
        assert(k == 0);
    } else {
        assert(k >= 1);
        lemma_first_byte_is(s.drop_first(), b, k - 1);
    }
}

/// A numeral's value is never negative.
pub proof fn lemma_digits_val_nonneg(s: Seq<u8>)
    requires
        forall|i: int| 0 <= i < s.len() ==> is_digit(#[trigger] s[i]),
    ensures
        digits_val(s) >= 0,
    decreases s.len(),
{
    if s.len() > 0 {
        lemma_digits_val_nonneg(s.drop_last());
    }
}

/// Extending a numeral with further digits never shrinks its value.
pub proof fn lemma_digits_val_prefix(s: Seq<u8>, k: int)
    requires
        0 <= k <= s.len(),
        forall|i: int| 0 <= i < s.len() ==> is_digit(#[trigger] s[i]),
    ensures
        digits_val(s) >= digits_val(s.take(k)),
    decreases s.len(),
{
    if k == s.len() {
        assert(s.take(k) =~= s);
    } else {
        assert(s.drop_last() =~= s.take(s.len() - 1));
        assert(s.take(s.len() - 1).take(k) =~= s.take(k));
        lemma_digits_val_prefix(s.take(s.len() - 1), k);
        lemma_digits_val_nonneg(s.drop_last());
    }
}

/// The index of the first occurrence of `b` in `s`, or `s.len()` if none.
fn find_byte(s: &[u8], b: u8) -> (r: usize)
    ensures
        r == first_byte(s@, b),
        0 <= r <= s@.len(),
{
    let n = s.len();
    let mut i: usize = 0;
    while i < n
        invariant
            0 <= i <= n,
            n == s@.len(),
            forall|j: int| 0 <= j < i ==> s@[j] != b,
        decreases n - i,
    {
        if s[i] == b {
            proof {
                lemma_first_byte_is(s@, b, i as int);
            }
            return i;
        }
        i = i + 1;
    }
    proof {
        lemma_first_byte_is(s@, b, n as int);
    }
    n
}

/// `s` with leading and trailing whitespace removed.
fn trim_slice(s: &[u8]) -> (r: &[u8])
    ensures
        r@ == trim_spec(s@),
{
    let n = s.len();
    let mut lo: usize = 0;
    while lo < n && is_space_byte(s[lo])
        invariant
            0 <= lo <= n,
            n == s@.len(),
            forall|j: int| 0 <= j < lo ==> is_space(#[trigger] s@[j]),
        decreases n - lo,
    {
        lo = lo + 1;
    }
    if lo == n {
        proof {
            lemma_trim_is(s@, n as int, n as int);
        }
        return &s[n..n];
    }
    let mut hi: usize = n;
    while hi > lo && is_space_byte(s[hi - 1])
        invariant
            lo <= hi <= n,
            n == s@.len(),
            forall|j: int| hi <= j < n ==> is_space(#[trigger] s@[j]),
            lo < n && !is_space(s@[lo as int]),
        decreases hi,
    {
        hi = hi - 1;
    }
    proof {
        lemma_trim_is(s@, lo as int, hi as int);
    }
    &s[lo..hi]
}

/// Whether `b` is whitespace; the executable side of `is_space`.
fn is_space_byte(b: u8) -> (r: bool)
    ensures
        r == is_space(b),
{
    b == 32 || (9 <= b && b <= 13)
}

/// Removing the whitespace margins of `s` leaves exactly `s[lo..hi]`.
proof fn lemma_trim_is(s: Seq<u8>, lo: int, hi: int)
    requires
        0 <= lo <= hi <= s.len(),
        forall|j: int| 0 <= j < lo ==> is_space(#[trigger] s[j]),
        forall|j: int| hi <= j < s.len() ==> is_space(#[trigger] s[j]),
        lo < hi ==> !is_space(s[lo]) && !is_space(s[hi - 1]),
        lo == hi ==> lo == s.len(),
    ensures
        trim_spec(s) == s.subrange(lo, hi),
    decreases s.len(),
{
    if s.len() == 0 {
        assert(trim_spec(s) =~= s.subrange(lo, hi));
    } else if is_space(s[0]) {
        if lo == hi {
            lemma_trim_is(s.drop_first(), lo - 1, hi - 1);
            assert(trim_spec(s) =~= s.subrange(lo, hi));
        } else {
            assert(lo >= 1);
            lemma_trim_is(s.drop_first(), lo - 1, hi - 1);
            assert(s.drop_first().subrange(lo - 1, hi - 1) =~= s.subrange(lo, hi));
        }
    } else if is_space(s.last()) {
        assert(lo == 0);
        assert(hi < s.len());
        lemma_trim_is(s.drop_last(), lo, hi);
        assert(s.drop_last().subrange(lo, hi) =~= s.subrange(lo, hi));
    } else {
        assert(lo == 0 && hi == s.len());
        assert(trim_spec(s) =~= s.subrange(lo, hi));
    }
}

/// Parses `s` whole as a decimal numeral of at most `max`. Returns the value
/// exactly when `s` is nonempty, all digits, and its value does not exceed
/// `max`.
fn parse_uint(s: &[u8], max: u32) -> (r: Option<u32>)
    ensures
        match r {
            Some(v) => all_digits(s@) && digits_val(s@) == v && v <= max,
            None => !(all_digits(s@) && digits_val(s@) <= max),
        },
{
    let n = s.len();
    if n == 0 {
        return None;
    }
    let mut i: usize = 0;
    let mut acc: u32 = 0;
    while i < n
        invariant
            0 <= i <= n,
            n == s@.len(),
            n > 0,
            forall|j: int| 0 <= j < i ==> is_digit(#[trigger] s@[j]),
            acc == digits_val(s@.take(i as int)),
            acc <= max,
        decreases n - i,
    {
        let b = s[i];
        if !(48 <= b && b <= 57) {
            return None;
        }
        let d = (b - 48) as u32;
        let wide: u64 = acc as u64 * 10 + d as u64;
        proof {
            assert(s@.take(i + 1).drop_last() =~= s@.take(i as int));
            assert(s@.take(i + 1).last() == s@[i as int]);
        }
        if wide > max as u64 {
            proof {
                if all_digits(s@) {
                    lemma_digits_val_prefix(s@, i + 1);
                }
            }
            return None;
        }
        acc = wide as u32;
        i = i + 1;
    }
    proof {
        assert(s@.take(n as int) =~= s@);
    }
    Some(acc)
}

/// Digit bytes only; unlike `all_digits`, an empty sequence passes.
pub open spec fn digits_only(s: Seq<u8>) -> bool {
    forall|i: int| 0 <= i < s.len() ==> is_digit(#[trigger] s[i])
}

/// The most whole seconds a tick interval may hold so that its count of
/// milliseconds still fits in u32.
pub const TICK_MAX_SECONDS: u32 = 4294966;

/// The milliseconds contributed by the fraction part of a tick interval: its
/// first three digits, padded with zeros on the right; digits below the
/// millisecond are dropped.
pub open spec fn frac_ms(f: Seq<u8>) -> int {
    if f.len() == 0 {
        0
    } else if f.len() == 1 {
        digits_val(f) * 100
    } else if f.len() == 2 {
        digits_val(f) * 10
    } else {
        digits_val(f.take(3))
    }
}

/// A tick interval in decimal seconds (`15`, `0.15`, `.5`), read to whole
/// milliseconds: digits, optionally one dot and further digits, at least one
/// digit in all, and at most `TICK_MAX_SECONDS` whole seconds.
pub open spec fn tick_spec(s: Seq<u8>) -> Option<u32> {
    let i = first_byte(s, 46);
    if i == s.len() {
        if all_digits(s) && digits_val(s) <= TICK_MAX_SECONDS {
            Some((digits_val(s) * 1000) as u32)
        } else {
            None
        }
    } else {
        let ip = s.take(i);
        let fp = s.skip(i + 1);
        if digits_only(ip) && digits_only(fp) && ip.len() + fp.len() > 0 && first_byte(fp, 46)
            == fp.len() && digits_val(ip) <= TICK_MAX_SECONDS {
            Some((digits_val(ip) * 1000 + frac_ms(fp)) as u32)
        } else {
            None
        }
    }
}

/// The value of a nonempty all-digit numeral of at most u16::MAX.
pub open spec fn u16_spec(s: Seq<u8>) -> Option<u16> {
    if all_digits(s) && digits_val(s) <= 65535 {
        Some(digits_val(s) as u16)
    } else {
        None
    }
}

/// The value of a nonempty all-digit numeral of at most u8::MAX.
pub open spec fn u8_spec(s: Seq<u8>) -> Option<u8> {
    if all_digits(s) && digits_val(s) <= 255 {
        Some(digits_val(s) as u8)
    } else {
        None
    }
}

/// Two comma-separated u16 numerals out of `s`: the text is trimmed whole,
/// split at commas, and the first two pieces read as numbers; pieces past the
/// second are ignored. None when the comma or either numeral is missing or a
/// value is out of range.
pub open spec fn u16pair_spec(s: Seq<u8>) -> Option<(u16, u16)> {
    let t = trim_spec(s);
    let i = first_byte(t, 44);
    if i == t.len() {
        None
    } else {
        let rest = t.skip(i + 1);
        match (u16_spec(t.take(i)), u16_spec(rest.take(first_byte(rest, 44)))) {
            (Some(a), Some(b)) => Some((a, b)),
            _ => None,
        }
    }
}

/// Three comma-separated u8 numerals out of `s`, as `u16pair_spec` but for a
/// color triple.
pub open spec fn color_spec(s: Seq<u8>) -> Option<(u8, u8, u8)> {
    let t = trim_spec(s);
    let i = first_byte(t, 44);
    if i == t.len() {
        None
    } else {
        let r1 = t.skip(i + 1);
        let j = first_byte(r1, 44);
        if j == r1.len() {
            None
        } else {
            let r2 = r1.skip(j + 1);
            match (u8_spec(t.take(i)), u8_spec(r1.take(j)), u8_spec(r2.take(first_byte(r2, 44)))) {
                (Some(a), Some(b), Some(c)) => Some((a, b, c)),
                _ => None,
            }
        }
    }
}

/// Reads a pair of tile counts such as `12,12`: the trimmed text split at
/// commas, the first two pieces as decimals of at most u16::MAX.
pub fn get_u16pair(value: &str) -> (r: Option<(u16, u16)>)
    ensures
        r == u16pair_spec(value.spec_bytes()),
{
    u16pair_bytes(value.as_bytes())
}

/// Reads a color triple such as `255,255,127`: the trimmed text split at
/// commas, the first three pieces as decimals of at most u8::MAX.
pub fn get_color(value: &str) -> (r: Option<(u8, u8, u8)>)
    ensures
        r == color_spec(value.spec_bytes()),
{
    color_bytes(value.as_bytes())
}

/// `u16pair_spec`, executably, on a byte slice.
fn u16pair_bytes(s: &[u8]) -> (r: Option<(u16, u16)>)
    ensures
        r == u16pair_spec(s@),
{
    let t = trim_slice(s);
    let i = find_byte(t, 44);
    if i == t.len() {
        return None;
    }
    let p0 = parse_uint(&t[0..i], 65535);
    let rest = &t[i + 1..t.len()];
    let j = find_byte(rest, 44);
    let p1 = parse_uint(&rest[0..j], 65535);
    proof {
        assert(t@.subrange(0, i as int) =~= t@.take(i as int));
        assert(rest@ =~= t@.skip(i + 1));
        assert(rest@.subrange(0, j as int) =~= rest@.take(j as int));
    }
    match (p0, p1) {
        (Some(a), Some(b)) => Some((a as u16, b as u16)),
        _ => None,
    }
}

/// `color_spec`, executably, on a byte slice.
fn color_bytes(s: &[u8]) -> (r: Option<(u8, u8, u8)>)
    ensures
        r == color_spec(s@),
{
    let t = trim_slice(s);
    let i = find_byte(t, 44);
    if i == t.len() {
        return None;
    }
    let r1 = &t[i + 1..t.len()];
    let j = find_byte(r1, 44);
    if j == r1.len() {
        proof {
            assert(r1@ =~= t@.skip(i + 1));
        }
        return None;
    }
    let p0 = parse_uint(&t[0..i], 255);
    let p1 = parse_uint(&r1[0..j], 255);
    let r2 = &r1[j + 1..r1.len()];
    let k = find_byte(r2, 44);
    let p2 = parse_uint(&r2[0..k], 255);
    proof {
        assert(t@.subrange(0, i as int) =~= t@.take(i as int));
        assert(r1@ =~= t@.skip(i + 1));
        assert(r1@.subrange(0, j as int) =~= r1@.take(j as int));
        assert(r2@ =~= r1@.skip(j + 1));
        assert(r2@.subrange(0, k as int) =~= r2@.take(k as int));
    }
    match (p0, p1, p2) {
        (Some(a), Some(b), Some(c)) => Some((a as u8, b as u8, c as u8)),
        _ => None,
    }
}

/// `frac_ms` and the all-digit check, executably: Some exactly when `f` is
/// digits only (possibly empty).
fn parse_frac(f: &[u8]) -> (r: Option<u32>)
    ensures
        match r {
            Some(v) => digits_only(f@) && v == frac_ms(f@) && v <= 999,
            None => !digits_only(f@),
        },
{
    let n = f.len();
    let mut i: usize = 0;
    while i < n
        invariant
            0 <= i <= n,
            n == f@.len(),
            forall|j: int| 0 <= j < i ==> is_digit(#[trigger] f@[j]),
        decreases n - i,
    {
        let b = f[i];
        if !(48 <= b && b <= 57) {
            return None;
        }
        i = i + 1;
    }
    if n == 0 {
        Some(0)
    } else if n == 1 {
        let v = (f[0] - 48) as u32 * 100;
        proof {
            let t1 = f@;
            let t0 = t1.drop_last();
            assert(t0 =~= Seq::<u8>::empty());
            assert(digits_val(t0) == 0);
            assert(digits_val(t1) == digit_val(f@[0]));
        }
        Some(v)
    } else if n == 2 {
        let v = ((f[0] - 48) as u32 * 10 + (f[1] - 48) as u32) * 10;
        proof {
            let t2 = f@;
            let t1 = t2.drop_last();
            let t0 = t1.drop_last();
            assert(t0 =~= Seq::<u8>::empty());
            assert(digits_val(t0) == 0);
            assert(t1.last() == f@[0]);
            assert(digits_val(t1) == digit_val(f@[0]));
            assert(t2.last() == f@[1]);
            assert(digits_val(t2) == digit_val(f@[0]) * 10 + digit_val(f@[1]));
        }
        Some(v)
    } else {
        let v = (f[0] - 48) as u32 * 100 + (f[1] - 48) as u32 * 10 + (f[2] - 48) as u32;
        proof {
            let t3 = f@.take(3);
            let t2 = t3.drop_last();
            let t1 = t2.drop_last();
            let t0 = t1.drop_last();
            assert(t0 =~= Seq::<u8>::empty());
            assert(digits_val(t0) == 0);
            assert(t1.last() == f@[0]);
            assert(digits_val(t1) == digit_val(f@[0]));
            assert(t2.last() == f@[1]);
            assert(digits_val(t2) == digit_val(f@[0]) * 10 + digit_val(f@[1]));
            assert(t3.last() == f@[2]);
            assert(digits_val(t3) == (digit_val(f@[0]) * 10 + digit_val(f@[1])) * 10 + digit_val(
                f@[2],
            ));
        }
        Some(v)
    }
}

/// `tick_spec`, executably, on a byte slice.
fn parse_tick(s: &[u8]) -> (r: Option<u32>)
    ensures
        r == tick_spec(s@),
{
    let i = find_byte(s, 46);
    if i == s.len() {
        match parse_uint(s, TICK_MAX_SECONDS) {
            Some(v) => Some(v * 1000),
            None => None,
        }
    } else {
        let ip = &s[0..i];
        let fp = &s[i + 1..s.len()];
        proof {
            assert(ip@ =~= s@.take(i as int));
            assert(fp@ =~= s@.skip(i + 1));
        }
        if find_byte(fp, 46) != fp.len() {
            return None;
        }
        if ip.len() == 0 && fp.len() == 0 {
            return None;
        }
        let iv: u32 = if ip.len() == 0 {
            0
        } else {
            match parse_uint(ip, TICK_MAX_SECONDS) {
                Some(v) => v,
                None => {
                    return None;
                },
            }
        };
        let fv: u32 = match parse_frac(fp) {
            Some(v) => v,
            None => {
                return None;
            },
        };
        proof {
            if ip@.len() > 0 {
                lemma_digits_val_nonneg(ip@);
            }
        }
        Some(iv * 1000 + fv)
    }
}

/// A byte, upper-cased if an ASCII lowercase letter.
pub open spec fn to_upper(b: u8) -> u8 {
    if 97 <= b && b <= 122 {
        (b - 32) as u8
    } else {
        b
    }
}

/// The sequence upper-cased bytewise.
pub open spec fn upper_spec(s: Seq<u8>) -> Seq<u8> {
    s.map_values(|b: u8| to_upper(b))
}

/// The text split at newlines: the last line needs no trailing newline, and a
/// trailing newline yields a final empty line.
pub open spec fn lines_of(s: Seq<u8>) -> Seq<Seq<u8>>
    decreases s.len(),
{
    let i = first_byte(s, 10);
    if 0 <= i < s.len() {
        seq![s.take(i)] + lines_of(s.skip(i + 1))
    } else {
        seq![s]
    }
}

/// One recognized `KEY=value` setting applied to `c`. None is the fatal case:
/// a recognized key whose value does not parse. An unrecognized key changes
/// nothing (the loader merely reports it).
pub open spec fn apply_kv(c: Config, key: Seq<u8>, val: Seq<u8>) -> Option<Config> {
    if key == "TILES".spec_bytes() {
        match u16pair_spec(val) {
            Some(p) => Some(Config { tiles: p, ..c }),
            None => None,
        }
    } else if key == "TILE_SIZE".spec_bytes() {
        match u16pair_spec(val) {
            Some(p) => Some(Config { tile_size: p, ..c }),
            None => None,
        }
    } else if key == "BG_COLOR".spec_bytes() {
        match color_spec(val) {
            Some(p) => Some(Config { bg_color: p, ..c }),
            None => None,
        }
    } else if key == "SNAKE_COLOR".spec_bytes() {
        match color_spec(val) {
            Some(p) => Some(Config { snake_color: p, ..c }),
            None => None,
        }
    } else if key == "FOOD_COLOR".spec_bytes() {
        match color_spec(val) {
            Some(p) => Some(Config { food_color: p, ..c }),
            None => None,
        }
    } else if key == "TEXT_COLOR".spec_bytes() {
        match color_spec(val) {
            Some(p) => Some(Config { text_color: p, ..c }),
            None => None,
        }
    } else if key == "PADDING".spec_bytes() {
        match u16_spec(trim_spec(val)) {
            Some(p) => Some(Config { padding: p, ..c }),
            None => None,
        }
    } else if key == "TICK".spec_bytes() {
        match tick_spec(trim_spec(val)) {
            Some(p) => Some(Config { tick_ms: p, ..c }),
            None => None,
        }
    } else {
        Some(c)
    }
}

/// One line of configuration text applied to `c`: blank lines and lines
/// without exactly one `=` change nothing; otherwise the trimmed, upper-cased
/// text before the `=` picks the setting and the text after it is the value.
pub open spec fn apply_line(c: Config, line: Seq<u8>) -> Option<Config> {
    if trim_spec(line).len() == 0 {
        Some(c)
    } else {
        let i = first_byte(line, 61);
        if i == line.len() {
            Some(c)
        } else if first_byte(line.skip(i + 1), 61) != line.skip(i + 1).len() {
            Some(c)
        } else {
            apply_kv(c, upper_spec(trim_spec(line.take(i))), line.skip(i + 1))
        }
    }
}

/// The lines applied to `c` in order; a later setting overrides an earlier
/// one, and the first malformed value of a recognized key is fatal.
pub open spec fn fold_config(c: Config, ls: Seq<Seq<u8>>) -> Option<Config>
    decreases ls.len(),
{
    if ls.len() == 0 {
        Some(c)
    } else {
        match apply_line(c, ls[0]) {
            Some(c2) => fold_config(c2, ls.drop_first()),
            None => None,
        }
    }
}

/// What a whole configuration text means: the defaults, with each line's
/// setting applied in order.
pub open spec fn parse_config_spec(s: Seq<u8>) -> Option<Config> {
    fold_config(default_config(), lines_of(s))
}

/// `to_upper`, executably.
fn to_upper_byte(b: u8) -> (r: u8)
    ensures
        r == to_upper(b),
{
    if 97 <= b && b <= 122 {
        b - 32
    } else {
        b
    }
}

/// The slice upper-cased bytewise into a fresh vector.
fn upper_vec(s: &[u8]) -> (r: Vec<u8>)
    ensures
        r@ == upper_spec(s@),
{
    let n = s.len();
    let mut out: Vec<u8> = Vec::new();
    let mut i: usize = 0;
    while i < n
        invariant
            0 <= i <= n,
            n == s@.len(),
            out@ == upper_spec(s@.take(i as int)),
        decreases n - i,
    {
        out.push(to_upper_byte(s[i]));
        proof {
            assert(out@ =~= upper_spec(s@.take(i + 1)));
        }
        i = i + 1;
    }
    proof {
        assert(s@.take(n as int) =~= s@);
    }
    out
}

/// Bytewise slice equality.
fn eq_bytes(a: &[u8], b: &[u8]) -> (r: bool)
    ensures
        r == (a@ == b@),
{
    let n = a.len();
    if n != b.len() {
        return false;
    }
    let mut i: usize = 0;
    while i < n
        invariant
            0 <= i <= n,
            n == a@.len(),
            n == b@.len(),
            forall|j: int| 0 <= j < i ==> a@[j] == b@[j],
        decreases n - i,
    {
        if a[i] != b[i] {
            return false;
        }
        i = i + 1;
    }
    proof {
        assert(a@ =~= b@);
    }
    true
}

/// `apply_line`, executably.
fn apply_line_exec(c: Config, line: &[u8]) -> (r: Option<Config>)
    ensures
        r == apply_line(c, line@),
{
    let t = trim_slice(line);
    if t.len() == 0 {
        return Some(c);
    }
    let i = find_byte(line, 61);
    if i == line.len() {
        return Some(c);
    }
    let val = &line[i + 1..line.len()];
    proof {
        assert(val@ =~= line@.skip(i + 1));
    }
    if find_byte(val, 61) != val.len() {
        return Some(c);
    }
    proof {
        assert(line@.subrange(0, i as int) =~= line@.take(i as int));
    }
    let keyraw = trim_slice(&line[0..i]);
    let key = upper_vec(keyraw);
    if eq_bytes(key.as_slice(), "TILES".as_bytes()) {
        match u16pair_bytes(val) {
            Some(p) => Some(Config { tiles: p, ..c }),
            None => None,
        }
    } else if eq_bytes(key.as_slice(), "TILE_SIZE".as_bytes()) {
        match u16pair_bytes(val) {
            Some(p) => Some(Config { tile_size: p, ..c }),
            None => None,
        }
    } else if eq_bytes(key.as_slice(), "BG_COLOR".as_bytes()) {
        match color_bytes(val) {
            Some(p) => Some(Config { bg_color: p, ..c }),
            None => None,
        }
    } else if eq_bytes(key.as_slice(), "SNAKE_COLOR".as_bytes()) {
        match color_bytes(val) {
            Some(p) => Some(Config { snake_color: p, ..c }),
            None => None,
        }
    } else if eq_bytes(key.as_slice(), "FOOD_COLOR".as_bytes()) {
        match color_bytes(val) {
            Some(p) => Some(Config { food_color: p, ..c }),
            None => None,
        }
    } else if eq_bytes(key.as_slice(), "TEXT_COLOR".as_bytes()) {
        match color_bytes(val) {
            Some(p) => Some(Config { text_color: p, ..c }),
            None => None,
        }
    } else if eq_bytes(key.as_slice(), "PADDING".as_bytes()) {
        match parse_uint(trim_slice(val), 65535) {
            Some(p) => Some(Config { padding: p as u16, ..c }),
            None => None,
        }
    } else if eq_bytes(key.as_slice(), "TICK".as_bytes()) {
        match parse_tick(trim_slice(val)) {
            Some(p) => Some(Config { tick_ms: p, ..c }),
            None => None,
        }
    } else {
        Some(c)
    }
}

/// Reads a whole configuration text: one `KEY=value` setting per line over
/// the defaults. Recognized keys are the tile counts, tile pixel sizes, the
/// four colors, the padding and the tick interval; unrecognized keys and
/// lines without exactly one `=` change nothing; a recognized key with a
/// malformed value is fatal and yields None. The caller still checks
/// `is_valid` before building a session on the result.
pub fn parse_config(data: &str) -> (r: Option<Config>)
    ensures
        r == parse_config_spec(data.spec_bytes()),
{
    let b = data.as_bytes();
    let mut cur = Config {
        tiles: (12, 12),
        tile_size: (64, 64),
        bg_color: (0, 0, 0),
        snake_color: (127, 127, 127),
        food_color: (255, 255, 255),
        text_color: (255, 255, 127),
        padding: 8,
        tick_ms: 150,
    };
    proof {
        assert(cur == default_config());
        assert(b@.skip(0) =~= b@);
    }
    let mut pos: usize = 0;
    loop
        invariant
            0 <= pos <= b@.len(),
            b@ == data.spec_bytes(),
            parse_config_spec(data.spec_bytes()) == fold_config(cur, lines_of(b@.skip(pos as int))),
        decreases b@.len() - pos,
    {
        let rest = &b[pos..b.len()];
        let i = find_byte(rest, 10);
        proof {
            assert(rest@.subrange(0, i as int) =~= rest@.take(i as int));
        }
        let line = &rest[0..i];
        let next = apply_line_exec(cur, line);
        if i == rest.len() {
            proof {
                assert(rest@.take(i as int) =~= rest@);
                assert(lines_of(rest@) == seq![rest@]);
                assert(seq![rest@].drop_first() =~= Seq::<Seq<u8>>::empty());
                if let Some(c2) = apply_line(cur, rest@) {
                    assert(fold_config(c2, Seq::<Seq<u8>>::empty()) == Some(c2));
                }
            }
            match next {
                Some(c2) => {
                    return Some(c2);
                },
                None => {
                    return None;
                },
            }
        } else {
            proof {
                let ls = seq![rest@.take(i as int)] + lines_of(rest@.skip(i + 1));
                assert(ls[0] == rest@.take(i as int));
                assert(ls.drop_first() =~= lines_of(rest@.skip(i + 1)));
                assert(rest@.skip(i + 1) =~= b@.skip(pos + i + 1));
            }
            match next {
                Some(c2) => {
                    cur = c2;
                    pos = pos + i + 1;
                },
                None => {
                    return None;
                },
            }
        }
    }
}

} // verus!
