//! API versions: the version a plugin was built against, the compatibility
//! rule between a plugin and the engine, and their textual forms.

use vstd::prelude::*;

verus! {

// ── Decimal text ───────────────────────────────────────────────────

/// Whether `c` is an ASCII decimal digit.
pub open spec fn is_digit(c: char) -> bool {
    '0' <= c && c <= '9'
}

/// The value of a decimal digit character.
pub open spec fn digit_value(c: char) -> nat {
    (c as int - '0' as int) as nat
}

/// The digit character of a value below ten.
pub open spec fn digit_char(d: nat) -> char {
    (d + '0' as int) as char
}

/// How many decimal digits `s` starts with.
pub open spec fn leading_digits(s: Seq<char>) -> nat
    decreases s.len(),
{
    if s.len() > 0 && is_digit(s[0]) {
        1 + leading_digits(s.drop_first())
    } else {
        0
    }
}

/// The number that a sequence of digits writes, most significant first.
pub open spec fn digits_value(s: Seq<char>) -> nat
    decreases s.len(),
{
    if s.len() == 0 {
        0
    } else {
        digits_value(s.drop_last()) * 10 + digit_value(s.last())
    }
}

/// The number written by the decimal digits at the start of `s`
/// (zero when `s` does not start with a digit).
pub open spec fn leading_number(s: Seq<char>) -> nat {
    digits_value(s.take(leading_digits(s) as int))
}

/// The decimal text of `n`, without leading zeros.
pub open spec fn decimal(n: nat) -> Seq<char>
    decreases n,
{
    if n < 10 {
        seq![digit_char(n)]
    } else {
        decimal(n / 10).push(digit_char(n % 10))
    }
}

proof fn lemma_leading_digits(s: Seq<char>, k: int)
    requires
        0 <= k <= s.len(),
        forall|j: int| 0 <= j < k ==> is_digit(#[trigger] s[j]),
    ensures
        leading_digits(s) >= k,
        k == s.len() || !is_digit(s[k]) ==> leading_digits(s) == k,
    decreases k,
{
    if k > 0 {
        let t = s.drop_first();
        assert forall|j: int| 0 <= j < k - 1 implies is_digit(#[trigger] t[j]) by {
            assert(t[j] == s[j + 1]);
        }
        lemma_leading_digits(t, k - 1);
        if k < s.len() {
            assert(t[k - 1] == s[k]);
        }
    }
}

proof fn lemma_leading_digits_bound(s: Seq<char>)
    ensures
        leading_digits(s) <= s.len(),
        forall|j: int| 0 <= j < leading_digits(s) ==> is_digit(#[trigger] s[j]),
    decreases s.len(),
{
    if s.len() > 0 && is_digit(s[0]) {
        let t = s.drop_first();
        lemma_leading_digits_bound(t);
        assert forall|j: int| 0 <= j < leading_digits(s) implies is_digit(#[trigger] s[j]) by {
            if j > 0 {
                assert(s[j] == t[j - 1]);
            }
        }
    }
}

proof fn lemma_digits_value_step(s: Seq<char>, i: int)
    requires
        0 <= i < s.len(),
    ensures
        digits_value(s.take(i + 1)) == digits_value(s.take(i)) * 10 + digit_value(s[i]),
{
    assert(s.take(i + 1).drop_last() =~= s.take(i));
}

proof fn lemma_digits_value_monotone(s: Seq<char>, k: int, m: int)
    requires
        0 <= k <= m <= s.len(),
    ensures
        digits_value(s.take(k)) <= digits_value(s.take(m)),
    decreases m - k,
{
    if k < m {
        lemma_digits_value_step(s, m - 1);
        lemma_digits_value_monotone(s, k, m - 1);
    }
}

fn char_is_digit(c: char) -> (b: bool)
    ensures
        b == is_digit(c),
{
    '0' <= c && c <= '9'
}

/// The number written by the decimal digits at the start of `s`; the
/// parsing stops at the first character that is not a digit.
pub fn parse_version_num(s: &str) -> (n: u32)
    requires
        leading_number(s@) <= u32::MAX,
    ensures
        n == leading_number(s@),
{
    let len = s.unicode_len();
    let mut n: u32 = 0;
    let mut i: usize = 0;
    proof {
        lemma_leading_digits_bound(s@);
        assert(s@.take(0) =~= Seq::<char>::empty());
    }
    while i < len && char_is_digit(s.get_char(i))
        invariant
            len == s@.len(),
            i <= len,
            i <= leading_digits(s@),
            leading_digits(s@) <= s@.len(),
            leading_number(s@) <= u32::MAX,
            forall|j: int| 0 <= j < i ==> is_digit(#[trigger] s@[j]),
            n == digits_value(s@.take(i as int)),
        decreases len - i,
    {
        let c = s.get_char(i);
        proof {
            lemma_leading_digits(s@, i + 1);
            lemma_digits_value_step(s@, i as int);
            lemma_digits_value_monotone(s@, i + 1, leading_digits(s@) as int);
        }
        n = n * 10 + (c as u32 - '0' as u32);
        i = i + 1;
    }
    proof {
        lemma_leading_digits(s@, i as int);
    }
    n
}

/// Appends the decimal text of `n` to `out`.
fn push_decimal(out: &mut String, n: u32)
    ensures
        final(out)@ == old(out)@ + decimal(n as nat),
    decreases n,
{
    if n >= 10 {
        push_decimal(out, n / 10);
    }
    out.append(digit_text(n % 10));
    proof {
        if n >= 10 {
            assert(old(out)@ + decimal((n / 10) as nat) + seq![digit_char((n % 10) as nat)]
                =~= old(out)@ + decimal(n as nat));
        } else {
            assert(old(out)@ + seq![digit_char((n % 10) as nat)] =~= old(out)@ + decimal(n as nat));
        }
    }
}

fn digit_text(d: u32) -> (t: &'static str)
    requires
        d < 10,
    ensures
        t@ == seq![digit_char(d as nat)],
{
    proof {
        reveal_strlit("0");
        reveal_strlit("1");
        reveal_strlit("2");
        reveal_strlit("3");
        reveal_strlit("4");
        reveal_strlit("5");
        reveal_strlit("6");
        reveal_strlit("7");
        reveal_strlit("8");
        reveal_strlit("9");
    }
    match d {
        0 => "0",
        1 => "1",
        2 => "2",
        3 => "3",
        4 => "4",
        5 => "5",
        6 => "6",
        7 => "7",
        8 => "8",
        _ => "9",
    }
}

// ── ApiVersion ─────────────────────────────────────────────────────

/// Version of the plugin API, baked in when a plugin is built.
///
/// Each plugin reports it on load; the engine compares it with its own.
#[derive(Clone, Copy, Debug, PartialEq, Eq, Structural)]
pub struct ApiVersion {
    /// Major version — breaking changes.
    pub major: u32,
    /// Minor version — backwards-compatible additions.
    pub minor: u32,
    /// Patch version — backwards-compatible bug fixes.
    pub patch: u32,
}

/// Version mismatch between a plugin and the engine.
#[derive(Clone, Copy, Debug, PartialEq, Eq, Structural)]
pub enum VersionMismatch {
    /// The plugin's major version differs from the engine's.
    Incompatible { plugin: ApiVersion, engine: ApiVersion },
}

/// The outcome of checking a plugin version against an engine version:
/// compatible exactly when the major versions agree.
pub open spec fn compatibility(plugin: ApiVersion, engine: ApiVersion) -> Result<
    (),
    VersionMismatch,
> {
    if plugin.major == engine.major {
        Ok(())
    } else {
        Err(VersionMismatch::Incompatible { plugin, engine })
    }
}

impl ApiVersion {
    /// `major.minor.patch`, each in decimal.
    pub open spec fn text(self) -> Seq<char> {
        decimal(self.major as nat) + "."@ + decimal(self.minor as nat) + "."@ + decimal(
            self.patch as nat,
        )
    }

    /// The version of this API, read from its major, minor and patch
    /// numbers written in decimal.  These digits are written out here; they
    /// must be kept equal to the `version` in `Cargo.toml` by hand when the
    /// package version changes, since nothing ties the two together.
    pub fn current() -> (v: ApiVersion)
        ensures
            v == (ApiVersion { major: 0, minor: 2, patch: 2 }),
    {
        proof {
            reveal_strlit("0");
            reveal_strlit("2");
            assert(leading_digits("0"@) == 1) by {
                reveal_with_fuel(leading_digits, 2);
            }
            assert(leading_digits("2"@) == 1) by {
                reveal_with_fuel(leading_digits, 2);
            }
            assert("0"@.take(1) =~= "0"@);
            assert("2"@.take(1) =~= "2"@);
            assert(digits_value("0"@) == 0) by {
                reveal_with_fuel(digits_value, 2);
                assert("0"@.drop_last() =~= Seq::<char>::empty());
            }
            assert(digits_value("2"@) == 2) by {
                reveal_with_fuel(digits_value, 2);
                assert("2"@.drop_last() =~= Seq::<char>::empty());
            }
        }
        ApiVersion {
            major: parse_version_num("0"),
            minor: parse_version_num("2"),
            patch: parse_version_num("2"),
        }
    }

    /// Checks compatibility with an engine version: `Ok(())` when the major
    /// versions match (a minor difference is accepted; the caller may log
    /// it), `Incompatible` otherwise.
    pub fn compatible_with(&self, engine_version: &ApiVersion) -> (r: Result<(), VersionMismatch>)
        ensures
            r == compatibility(*self, *engine_version),
    {
        if self.major != engine_version.major {
            return Err(VersionMismatch::Incompatible { plugin: *self, engine: *engine_version });
        }
        Ok(())
    }

    fn push_text(&self, out: &mut String)
        ensures
            final(out)@ == old(out)@ + self.text(),
    {
        push_decimal(out, self.major);
        out.append(".");
        push_decimal(out, self.minor);
        out.append(".");
        push_decimal(out, self.patch);
        proof {
            assert(final(out)@ =~= old(out)@ + self.text());
        }
    }

    /// The version as `major.minor.patch` (what `Display` shows).
    pub fn to_string(&self) -> (s: String)
        ensures
            s@ == self.text(),
    {
        let mut s = String::new();
        self.push_text(&mut s);
        proof {
            assert(s@ =~= self.text());
        }
        s
    }
}

impl VersionMismatch {
    /// The human-readable text of the mismatch.
    pub open spec fn text(self) -> Seq<char> {
        match self {
            VersionMismatch::Incompatible { plugin, engine } => "plugin API v"@ + plugin.text()
                + " is incompatible with engine API v"@ + engine.text()
                + " (major version mismatch; expected "@ + decimal(engine.major as nat) + ", got "@
                + decimal(plugin.major as nat) + ")"@,
        }
    }

    /// The human-readable text of the mismatch (what `Display` shows).
    pub fn to_string(&self) -> (s: String)
        ensures
            s@ == self.text(),
    {
        match self {
            VersionMismatch::Incompatible { plugin, engine } => {
                let mut s = String::from_str("plugin API v");
                plugin.push_text(&mut s);
                s.append(" is incompatible with engine API v");
                engine.push_text(&mut s);
                s.append(" (major version mismatch; expected ");
                push_decimal(&mut s, engine.major);
                s.append(", got ");
                push_decimal(&mut s, plugin.major);
                s.append(")");
                proof {
                    assert(s@ =~= self.text());
                }
                s
            },
        }
    }
}

} // verus!

verus! {

// ── Laws ───────────────────────────────────────────────────────────

/// A plugin is accepted exactly when its major version equals the
/// engine's; when the majors differ the check fails and reports both
/// versions, plugin first.
pub proof fn law_compatible_iff_same_major(plugin: ApiVersion, engine: ApiVersion)
    ensures
        compatibility(plugin, engine) is Ok <==> plugin.major == engine.major,
        plugin.major != engine.major ==> compatibility(plugin, engine) == Err::<(), VersionMismatch>(
            VersionMismatch::Incompatible { plugin, engine },
        ),
{
}

/// Every version is compatible with itself.
pub proof fn law_compatible_with_itself(v: ApiVersion)
    ensures
        compatibility(v, v) is Ok,
{
}

/// Compatibility does not depend on which side is the plugin: the check
/// succeeds one way exactly when it succeeds the other way.
pub proof fn law_compatibility_symmetric(a: ApiVersion, b: ApiVersion)
    ensures
        compatibility(a, b) is Ok <==> compatibility(b, a) is Ok,
{
}

/// Minor and patch numbers never decide compatibility: versions that agree
/// on their major numbers get the same outcome against any engine.
pub proof fn law_only_major_decides(a: ApiVersion, b: ApiVersion, engine: ApiVersion)
    requires
        a.major == b.major,
    ensures
        compatibility(a, engine) is Ok <==> compatibility(b, engine) is Ok,
{
}

proof fn lemma_decimal_digits(n: nat)
    ensures
        decimal(n).len() >= 1,
        forall|j: int| 0 <= j < decimal(n).len() ==> is_digit(#[trigger] decimal(n)[j]),
        digits_value(decimal(n)) == n,
    decreases n,
{
    if n >= 10 {
        lemma_decimal_digits(n / 10);
        let s = decimal(n);
        assert(s.drop_last() =~= decimal(n / 10));
        assert(s.last() == digit_char(n % 10));
        assert(digit_value(digit_char(n % 10)) == n % 10);
        assert((n / 10) * 10 + n % 10 == n);
        assert(digits_value(s) == digits_value(decimal(n / 10)) * 10 + digit_value(s.last()));
        assert forall|j: int| 0 <= j < s.len() implies is_digit(#[trigger] s[j]) by {
            if j < s.len() - 1 {
                assert(s[j] == decimal(n / 10)[j]);
            }
        }
    } else {
        assert(decimal(n).drop_last() =~= Seq::<char>::empty());
        assert(digit_value(digit_char(n)) == n);
        assert(digits_value(Seq::<char>::empty()) == 0);
    }
}

/// Reading back the decimal text of a number gives the number.
pub proof fn law_decimal_round_trip(n: nat)
    ensures
        leading_number(decimal(n)) == n,
{
    lemma_decimal_digits(n);
    let s = decimal(n);
    lemma_leading_digits(s, s.len() as int);
    assert(s.take(s.len() as int) =~= s);
}

/// Reading the leading number of a version's text gives its major number:
/// the text starts with the major number, followed by a dot.
pub proof fn law_version_text_starts_with_major(v: ApiVersion)
    ensures
        leading_number(v.text()) == v.major,
{
    reveal_strlit(".");
    let m = decimal(v.major as nat);
    let t = v.text();
    lemma_decimal_digits(v.major as nat);
    assert(t =~= m + ("."@ + decimal(v.minor as nat) + "."@ + decimal(v.patch as nat)));
    assert forall|j: int| 0 <= j < m.len() implies is_digit(#[trigger] t[j]) by {
        assert(t[j] == m[j]);
    }
    assert(t[m.len() as int] == '.');
    lemma_leading_digits(t, m.len() as int);
    assert(t.take(m.len() as int) =~= m);
}

} // verus!
