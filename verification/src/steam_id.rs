//! Canonical player identity and its three external notations: the bracketed
//! universe/account form, the colon-delimited legacy form, and the plain
//! 64-bit numeric form.
use crate::digits::{
    all_digits, char_digit, dec_digits, dec_val, digit_char, digit_val, is_digit,
    lemma_dec_digits_are_digits, lemma_dec_val_of_digits, lemma_digit_char_val, parse_u64_dec,
    u64_to_dec,
};
use vstd::prelude::*;

verus! {

/// Why a piece of text is not an identity: no notation matched, or a decoded
/// number does not fit the space its notation allows.
#[derive(Clone, Copy, PartialEq, Eq, Debug, Structural)]
pub enum SteamIdError {
    InvalidFormat,
    OutOfRange,
}

/// A player identity, held as its canonical 64-bit value.
///
/// The 64-bit value packs, from the low bits up: a 32-bit account number, a
/// 20-bit instance, a 4-bit account type and an 8-bit universe. The values
/// produced by parsing carry the standard individual type and instance (both
/// one).
#[derive(Clone, Copy, PartialEq, Eq, Hash, Debug, Structural)]
pub struct SteamId(pub u64);

/// The universe bits of a canonical value.
pub open spec fn universe(id: u64) -> u64 {
    id >> 56
}

/// The account-type bits of a canonical value.
pub open spec fn acct_type(id: u64) -> u64 {
    (id >> 52) & 0xF
}

/// The instance bits of a canonical value.
pub open spec fn instance(id: u64) -> u64 {
    (id >> 32) & 0xF_FFFF
}

/// The 32-bit account number of a canonical value.
pub open spec fn account(id: u64) -> u64 {
    id & 0xFFFF_FFFF
}

/// A canonical value with the standard individual type and instance: the
/// values the textual notations can express.
pub open spec fn is_standard(id: u64) -> bool {
    acct_type(id) == 1 && instance(id) == 1
}

/// The canonical value with universe `u`, account `a`, and the standard
/// individual type and instance.
pub open spec fn make_id(u: u64, a: u64) -> u64 {
    (u << 56) | 0x0010_0000_0000_0000u64 | 0x0000_0001_0000_0000u64 | a
}

/// The canonical bracketed writing of `id`: `[U:universe:account]`.
pub open spec fn spec_steam3(id: u64) -> Seq<char> {
    seq!['[', 'U', ':'] + dec_digits(universe(id) as nat) + seq![':'] + dec_digits(
        account(id) as nat,
    ) + seq![']']
}

/// The universe digit the legacy form writes: zero stands for the public
/// universe (one).
pub open spec fn legacy_universe_digit(id: u64) -> nat {
    if universe(id) == 1 {
        0
    } else {
        universe(id) as nat
    }
}

/// The legacy colon-delimited writing of `id`:
/// `STEAM_X:parity:half-account`.
pub open spec fn spec_steam2(id: u64) -> Seq<char> {
    seq!['S', 'T', 'E', 'A', 'M', '_'] + dec_digits(legacy_universe_digit(id)) + seq![':']
        + dec_digits((account(id) % 2) as nat) + seq![':'] + dec_digits((account(id) / 2) as nat)
}

/// The first position at or after `i` holding `c`, or -1.
pub open spec fn find_from(s: Seq<char>, c: char, i: int) -> int
    decreases s.len() - i,
{
    if i < 0 || i >= s.len() {
        -1
    } else if s[i] == c {
        i
    } else {
        find_from(s, c, i + 1)
    }
}

/// Reading of the bracketed form `[U:universe:account]`. The universe must
/// fit 8 bits and the account 32; a shape that does not match fails as
/// `InvalidFormat`, a number outside its space as `OutOfRange`.
pub open spec fn spec_parse_steam3(s: Seq<char>) -> Result<u64, SteamIdError> {
    let j = find_from(s, ':', 3);
    if s.len() >= 7 && s[0] == '[' && s[1] == 'U' && s[2] == ':' && s[s.len() - 1] == ']' && 3 < j
        < s.len() - 2 && all_digits(s.subrange(3, j)) && all_digits(
        s.subrange(j + 1, s.len() - 1),
    ) {
        let u = dec_val(s.subrange(3, j));
        let a = dec_val(s.subrange(j + 1, s.len() - 1));
        if u <= 0xFF && a <= 0xFFFF_FFFF {
            Ok(make_id(u as u64, a as u64))
        } else {
            Err(SteamIdError::OutOfRange)
        }
    } else {
        Err(SteamIdError::InvalidFormat)
    }
}

/// Reading of the legacy form `STEAM_X:P:H`, where `X` is one universe digit
/// (zero standing for the public universe), `P` the account parity and `H`
/// the halved account number, so the account is `2 * H + P`.
pub open spec fn spec_parse_steam2(s: Seq<char>) -> Result<u64, SteamIdError> {
    if s.len() >= 11 && s[0] == 'S' && s[1] == 'T' && s[2] == 'E' && s[3] == 'A' && s[4] == 'M'
        && s[5] == '_' && is_digit(s[6]) && s[7] == ':' && is_digit(s[8]) && s[9] == ':'
        && all_digits(s.subrange(10, s.len() as int)) {
        let x = digit_val(s[6]);
        let p = digit_val(s[8]);
        let h = dec_val(s.subrange(10, s.len() as int));
        if p <= 1 {
            let acct = 2 * h + p;
            let uni: nat = if x == 0 {
                1
            } else {
                x
            };
            if acct <= 0xFFFF_FFFF {
                Ok(make_id(uni as u64, acct as u64))
            } else {
                Err(SteamIdError::OutOfRange)
            }
        } else {
            Err(SteamIdError::InvalidFormat)
        }
    } else {
        Err(SteamIdError::InvalidFormat)
    }
}

/// Reading of the numeric form: a plain decimal 64-bit value.
pub open spec fn spec_parse_numeric(s: Seq<char>) -> Result<u64, SteamIdError> {
    if s.len() > 0 && all_digits(s) {
        if dec_val(s) <= u64::MAX {
            Ok(dec_val(s) as u64)
        } else {
            Err(SteamIdError::OutOfRange)
        }
    } else {
        Err(SteamIdError::InvalidFormat)
    }
}

/// Reading of any of the three notations, told apart by their first
/// character.
pub open spec fn spec_parse(s: Seq<char>) -> Result<u64, SteamIdError> {
    if s.len() > 0 && s[0] == '[' {
        spec_parse_steam3(s)
    } else if s.len() > 0 && s[0] == 'S' {
        spec_parse_steam2(s)
    } else {
        spec_parse_numeric(s)
    }
}

impl View for SteamId {
    type V = u64;

    open spec fn view(&self) -> u64 {
        self.0
    }
}

/// Whether `s@.subrange(from, to)` holds only decimal digits.
fn digits_range(s: &str, from: usize, to: usize) -> (b: bool)
    requires
        from <= to <= s@.len(),
    ensures
        b == all_digits(s@.subrange(from as int, to as int)),
{
    let ghost sub = s@.subrange(from as int, to as int);
    let mut i: usize = from;
    while i < to
        invariant
            from <= i <= to <= s@.len(),
            sub == s@.subrange(from as int, to as int),
            all_digits(sub.take(i - from)),
        decreases to - i,
    {
        let c = s.get_char(i);
        proof {
            assert(sub[i - from] == c);
        }
        if char_digit(c) >= 10 {
            proof {
                assert(!is_digit(sub[i - from]));
            }
            return false;
        }
        i = i + 1;
        proof {
            assert forall|j: int| 0 <= j < i - from implies is_digit(#[trigger] sub.take(i - from)[j]) by {
                if j < i - 1 - from {
                    assert(is_digit(sub.take(i - 1 - from)[j]));
                } else {
                    assert(sub.take(i - from)[j] == sub[i - 1 - from]);
                }
            }
        }
    }
    proof {
        assert(sub.take(to - from) =~= sub);
    }
    true
}

proof fn lemma_find_skip(s: Seq<char>, c: char, from: int, i: int)
    requires
        0 <= from <= i <= s.len(),
        forall|k: int| from <= k < i ==> s[k] != c,
    ensures
        find_from(s, c, from) == find_from(s, c, i),
    decreases i - from,
{
    if from < i {
        lemma_find_skip(s, c, from + 1, i);
    }
}

/// The first `:` at or after `from`, if any.
fn find_colon(s: &str, from: usize, n: usize) -> (r: Option<usize>)
    requires
        n == s@.len(),
        from <= n,
    ensures
        match r {
            Some(j) => from <= j < n && find_from(s@, ':', from as int) == j,
            None => find_from(s@, ':', from as int) == -1,
        },
{
    let mut i: usize = from;
    while i < n
        invariant
            from <= i <= n == s@.len(),
            forall|k: int| from <= k < i ==> s@[k] != ':',
        decreases n - i,
    {
        if s.get_char(i) == ':' {
            proof {
                lemma_find_skip(s@, ':', from as int, i as int);
            }
            return Some(i);
        }
        i = i + 1;
    }
    proof {
        lemma_find_skip(s@, ':', from as int, n as int);
    }
    None
}

/// The canonical value with universe `u` and account `a`.
fn make_id_exec(u: u64, a: u64) -> (r: u64)
    ensures
        r == make_id(u, a),
{
    (u << 56u64) | 0x0010_0000_0000_0000u64 | 0x0000_0001_0000_0000u64 | a
}

proof fn lemma_make_id_fields(u: u64, a: u64)
    requires
        u <= 0xFF,
        a <= 0xFFFF_FFFF,
    ensures
        universe(make_id(u, a)) == u,
        acct_type(make_id(u, a)) == 1,
        instance(make_id(u, a)) == 1,
        account(make_id(u, a)) == a,
{
    let id = make_id(u, a);
    assert(u <= 0xFF && a <= 0xFFFF_FFFF ==> ((u << 56u64) | 0x0010_0000_0000_0000u64
        | 0x0000_0001_0000_0000u64 | a) >> 56 == u) by (bit_vector);
    assert(u <= 0xFF && a <= 0xFFFF_FFFF ==> (((u << 56u64) | 0x0010_0000_0000_0000u64
        | 0x0000_0001_0000_0000u64 | a) >> 52) & 0xF == 1) by (bit_vector);
    assert(u <= 0xFF && a <= 0xFFFF_FFFF ==> (((u << 56u64) | 0x0010_0000_0000_0000u64
        | 0x0000_0001_0000_0000u64 | a) >> 32) & 0xF_FFFF == 1) by (bit_vector);
    assert(u <= 0xFF && a <= 0xFFFF_FFFF ==> ((u << 56u64) | 0x0010_0000_0000_0000u64
        | 0x0000_0001_0000_0000u64 | a) & 0xFFFF_FFFF == a) by (bit_vector);
}

proof fn lemma_standard_recompose(id: u64)
    requires
        is_standard(id),
    ensures
        make_id(universe(id), account(id)) == id,
{
    assert((id >> 52) & 0xF == 1 && (id >> 32) & 0xF_FFFF == 1 ==> ((id >> 56) << 56u64)
        | 0x0010_0000_0000_0000u64 | 0x0000_0001_0000_0000u64 | (id & 0xFFFF_FFFF) == id)
        by (bit_vector);
}

proof fn lemma_field_bounds(id: u64)
    ensures
        universe(id) <= 0xFF,
        account(id) <= 0xFFFF_FFFF,
{
    assert(id >> 56 <= 0xFF) by (bit_vector);
    assert(id & 0xFFFF_FFFF <= 0xFFFF_FFFF) by (bit_vector);
}

impl SteamId {
    /// The identity for a raw 64-bit value; total inverse of [`Self::to_u64`].
    pub fn new(id: u64) -> (r: SteamId)
        ensures
            r@ == id,
    {
        SteamId(id)
    }

    /// The raw 64-bit value of this identity.
    pub fn to_u64(&self) -> (r: u64)
        ensures
            r == self@,
    {
        self.0
    }

    /// The canonical bracketed writing, `[U:universe:account]`.
    pub fn steam3(&self) -> (r: String)
        ensures
            r@ == spec_steam3(self@),
    {
        let u = self.0 >> 56u64;
        let a = self.0 & 0xFFFF_FFFFu64;
        let mut out = String::from_str("[U:");
        let du = u64_to_dec(u);
        out.append(du.as_str());
        out.append(":");
        let da = u64_to_dec(a);
        out.append(da.as_str());
        out.append("]");
        proof {
            reveal_strlit("[U:");
            reveal_strlit(":");
            reveal_strlit("]");
            assert(out@ =~= spec_steam3(self@));
        }
        out
    }

    /// The legacy colon-delimited writing, `STEAM_X:parity:half-account`.
    pub fn steam2(&self) -> (r: String)
        ensures
            r@ == spec_steam2(self@),
    {
        let u = self.0 >> 56u64;
        let a = self.0 & 0xFFFF_FFFFu64;
        let x: u64 = if u == 1 {
            0
        } else {
            u
        };
        proof {
            assert(a % 2 == (a & 1u64)) by (bit_vector);
            assert(a / 2 == (a >> 1u64)) by (bit_vector);
        }
        let mut out = String::from_str("STEAM_");
        let dx = u64_to_dec(x);
        out.append(dx.as_str());
        out.append(":");
        let dp = u64_to_dec(a & 1u64);
        out.append(dp.as_str());
        out.append(":");
        let dh = u64_to_dec(a >> 1u64);
        out.append(dh.as_str());
        proof {
            reveal_strlit("STEAM_");
            reveal_strlit(":");
            assert(out@ =~= spec_steam2(self@));
        }
        out
    }

    /// Reads the canonical bracketed notation alone.
    pub fn from_steam3(s: &str) -> (r: Result<SteamId, SteamIdError>)
        ensures
            match r {
                Ok(id) => spec_parse_steam3(s@) == Ok::<u64, SteamIdError>(id@),
                Err(e) => spec_parse_steam3(s@) == Err::<u64, SteamIdError>(e),
            },
    {
        let n = s.unicode_len();
        if n < 7 {
            return Err(SteamIdError::InvalidFormat);
        }
        if s.get_char(0) != '[' || s.get_char(1) != 'U' || s.get_char(2) != ':' || s.get_char(n - 1)
            != ']' {
            return Err(SteamIdError::InvalidFormat);
        }
        let j = match find_colon(s, 3, n) {
            Some(j) => j,
            None => {
                return Err(SteamIdError::InvalidFormat);
            },
        };
        if j <= 3 || j >= n - 2 {
            return Err(SteamIdError::InvalidFormat);
        }
        if !digits_range(s, 3, j) || !digits_range(s, j + 1, n - 1) {
            return Err(SteamIdError::InvalidFormat);
        }
        let u = match parse_u64_dec(s, 3, j) {
            Some(u) => u,
            None => {
                proof {
                    assert(dec_val(s@.subrange(3, j as int)) > u64::MAX);
                }
                return Err(SteamIdError::OutOfRange);
            },
        };
        let a = match parse_u64_dec(s, j + 1, n - 1) {
            Some(a) => a,
            None => {
                return Err(SteamIdError::OutOfRange);
            },
        };
        if u > 0xFF || a > 0xFFFF_FFFF {
            return Err(SteamIdError::OutOfRange);
        }
        Ok(SteamId(make_id_exec(u, a)))
    }

    /// Reads the legacy colon-delimited notation alone.
    pub fn from_steam2(s: &str) -> (r: Result<SteamId, SteamIdError>)
        ensures
            match r {
                Ok(id) => spec_parse_steam2(s@) == Ok::<u64, SteamIdError>(id@),
                Err(e) => spec_parse_steam2(s@) == Err::<u64, SteamIdError>(e),
            },
    {
        let n = s.unicode_len();
        if n < 11 {
            return Err(SteamIdError::InvalidFormat);
        }
        if s.get_char(0) != 'S' || s.get_char(1) != 'T' || s.get_char(2) != 'E' || s.get_char(3)
            != 'A' || s.get_char(4) != 'M' || s.get_char(5) != '_' {
            return Err(SteamIdError::InvalidFormat);
        }
        let x = char_digit(s.get_char(6));
        if x >= 10 || s.get_char(7) != ':' {
            return Err(SteamIdError::InvalidFormat);
        }
        let p = char_digit(s.get_char(8));
        if p >= 10 || s.get_char(9) != ':' {
            return Err(SteamIdError::InvalidFormat);
        }
        if !digits_range(s, 10, n) {
            return Err(SteamIdError::InvalidFormat);
        }
        if p > 1 {
            return Err(SteamIdError::InvalidFormat);
        }
        let h = match parse_u64_dec(s, 10, n) {
            Some(h) => h,
            None => {
                return Err(SteamIdError::OutOfRange);
            },
        };
        if h >= 0x8000_0000 {
            return Err(SteamIdError::OutOfRange);
        }
        let acct = 2 * h + p;
        let uni: u64 = if x == 0 {
            1
        } else {
            x
        };
        Ok(SteamId(make_id_exec(uni, acct)))
    }

    /// Reads the numeric notation alone.
    pub fn from_numeric_text(s: &str) -> (r: Result<SteamId, SteamIdError>)
        ensures
            match r {
                Ok(id) => spec_parse_numeric(s@) == Ok::<u64, SteamIdError>(id@),
                Err(e) => spec_parse_numeric(s@) == Err::<u64, SteamIdError>(e),
            },
    {
        let n = s.unicode_len();
        if n == 0 {
            return Err(SteamIdError::InvalidFormat);
        }
        if !digits_range(s, 0, n) {
            proof {
                assert(s@.subrange(0, n as int) =~= s@);
            }
            return Err(SteamIdError::InvalidFormat);
        }
        proof {
            assert(s@.subrange(0, n as int) =~= s@);
        }
        match parse_u64_dec(s, 0, n) {
            Some(v) => Ok(SteamId(v)),
            None => Err(SteamIdError::OutOfRange),
        }
    }

    /// Reads any of the three notations.
    pub fn parse(s: &str) -> (r: Result<SteamId, SteamIdError>)
        ensures
            match r {
                Ok(id) => spec_parse(s@) == Ok::<u64, SteamIdError>(id@),
                Err(e) => spec_parse(s@) == Err::<u64, SteamIdError>(e),
            },
    {
        let n = s.unicode_len();
        if n > 0 && s.get_char(0) == '[' {
            Self::from_steam3(s)
        } else if n > 0 && s.get_char(0) == 'S' {
            Self::from_steam2(s)
        } else {
            Self::from_numeric_text(s)
        }
    }
}

/// Parsing reads back the canonical bracketed writing of every standard
/// identity: the canonical string form is a faithful key.
pub proof fn lemma_steam3_roundtrip(id: u64)
    requires
        is_standard(id),
    ensures
        spec_parse(spec_steam3(id)) == Ok::<u64, SteamIdError>(id),
{
    let u = universe(id) as nat;
    let a = account(id) as nat;
    let du = dec_digits(u);
    let da = dec_digits(a);
    let s = spec_steam3(id);
    lemma_dec_digits_are_digits(u);
    lemma_dec_digits_are_digits(a);
    lemma_dec_val_of_digits(u);
    lemma_dec_val_of_digits(a);
    lemma_field_bounds(id);
    let j: int = 3 + du.len() as int;
    assert(s.len() == 5 + du.len() + da.len());
    assert(s[0] == '[' && s[1] == 'U' && s[2] == ':');
    assert(s[s.len() - 1] == ']');
    assert(s[j] == ':');
    assert forall|k: int| 3 <= k < j implies s[k] != ':' by {
        assert(s[k] == du[k - 3]);
        assert(is_digit(du[k - 3]));
    }
    lemma_find_skip(s, ':', 3, j);
    assert(find_from(s, ':', j) == j);
    assert(s.subrange(3, j) =~= du);
    assert(s.subrange(j + 1, s.len() - 1) =~= da);
    assert(3 < j < s.len() - 2);
    assert(all_digits(s.subrange(3, j)));
    assert(all_digits(s.subrange(j + 1, s.len() - 1)));
    assert(dec_val(s.subrange(3, j)) == u);
    assert(dec_val(s.subrange(j + 1, s.len() - 1)) == a);
    lemma_standard_recompose(id);
    assert(spec_parse_steam3(s) == Ok::<u64, SteamIdError>(id));
}

/// Parsing reads back the legacy writing of every standard identity whose
/// universe fits in one digit.
pub proof fn lemma_steam2_roundtrip(id: u64)
    requires
        is_standard(id),
        1 <= universe(id) <= 9,
    ensures
        spec_parse(spec_steam2(id)) == Ok::<u64, SteamIdError>(id),
{
    let x = legacy_universe_digit(id);
    let a = account(id) as nat;
    let p = a % 2;
    let h = a / 2;
    let dh = dec_digits(h);
    let s = spec_steam2(id);
    lemma_field_bounds(id);
    assert(x < 10);
    assert(dec_digits(x) =~= seq![digit_char(x)]);
    assert(dec_digits(p) =~= seq![digit_char(p)]);
    lemma_dec_digits_are_digits(h);
    lemma_dec_val_of_digits(h);
    lemma_digit_char_val(x);
    lemma_digit_char_val(p);
    assert(s.len() == 10 + dh.len());
    assert(s[0] == 'S' && s[1] == 'T' && s[2] == 'E' && s[3] == 'A' && s[4] == 'M' && s[5] == '_');
    assert(s[6] == digit_char(x));
    assert(s[7] == ':');
    assert(s[8] == digit_char(p));
    assert(s[9] == ':');
    assert(s.subrange(10, s.len() as int) =~= dh);
    assert(all_digits(s.subrange(10, s.len() as int)));
    assert(digit_val(s[6]) == x && is_digit(s[6]));
    assert(digit_val(s[8]) == p && is_digit(s[8]));
    assert(dec_val(s.subrange(10, s.len() as int)) == h);
    assert(2 * h + p == a);
    let uni: nat = if x == 0 {
        1
    } else {
        x
    };
    assert(uni == universe(id) as nat);
    lemma_standard_recompose(id);
    assert(spec_parse_steam2(s) == Ok::<u64, SteamIdError>(id));
}

/// Parsing reads back the numeric writing of any 64-bit value: the numeric
/// form and the identity are in exact bijection.
pub proof fn lemma_numeric_roundtrip(n: u64)
    ensures
        spec_parse(dec_digits(n as nat)) == Ok::<u64, SteamIdError>(n),
{
    let s = dec_digits(n as nat);
    lemma_dec_digits_are_digits(n as nat);
    lemma_dec_val_of_digits(n as nat);
    assert(s[0] != '[' && s[0] != 'S');
    assert(spec_parse_numeric(s) == Ok::<u64, SteamIdError>(n));
}

/// Every identity read from the bracketed or the legacy notation carries the
/// standard individual type and instance.
pub proof fn lemma_parse_yields_standard(s: Seq<char>, id: u64)
    requires
        s.len() > 0,
        s[0] == '[' || s[0] == 'S',
        spec_parse(s) == Ok::<u64, SteamIdError>(id),
    ensures
        is_standard(id),
{
    if s[0] == '[' {
        let j = find_from(s, ':', 3);
        let u = dec_val(s.subrange(3, j));
        let a = dec_val(s.subrange(j + 1, s.len() - 1));
        lemma_make_id_fields(u as u64, a as u64);
    } else {
        let x = digit_val(s[6]);
        let p = digit_val(s[8]);
        let h = dec_val(s.subrange(10, s.len() as int));
        let acct = 2 * h + p;
        let uni: nat = if x == 0 {
            1
        } else {
            x
        };
        lemma_make_id_fields(uni as u64, acct as u64);
    }
}

/// Reading a bracketed or legacy notation, writing the canonical form, and
/// reading again gives the same identity: parsing is a bijection with the
/// canonical string form on these notations.
pub proof fn lemma_parse_canonical_roundtrip(s: Seq<char>, id: u64)
    requires
        s.len() > 0,
        s[0] == '[' || s[0] == 'S',
        spec_parse(s) == Ok::<u64, SteamIdError>(id),
    ensures
        spec_parse(spec_steam3(id)) == spec_parse(s),
{
    lemma_parse_yields_standard(s, id);
    lemma_steam3_roundtrip(id);
}

impl core::str::FromStr for SteamId {
    type Err = SteamIdError;

    fn from_str(s: &str) -> Result<SteamId, SteamIdError> {
        SteamId::parse(s)
    }
}

impl Default for SteamId {
    /// The all-zero identity.
    fn default() -> (r: Self)
        ensures
            r@ == 0,
    {
        SteamId(0)
    }
}

impl From<u64> for SteamId {
    fn from(id: u64) -> (r: SteamId)
        ensures
            r@ == id,
    {
        SteamId(id)
    }
}

impl vstd::std_specs::convert::FromSpecImpl<u64> for SteamId {
    open spec fn obeys_from_spec() -> bool {
        true
    }

    open spec fn from_spec(id: u64) -> SteamId {
        SteamId(id)
    }
}

impl From<SteamId> for u64 {
    fn from(id: SteamId) -> (r: u64)
        ensures
            r == id@,
    {
        id.0
    }
}

impl vstd::std_specs::convert::FromSpecImpl<SteamId> for u64 {
    open spec fn obeys_from_spec() -> bool {
        true
    }

    open spec fn from_spec(id: SteamId) -> u64 {
        id.0
    }
}

} // verus!
