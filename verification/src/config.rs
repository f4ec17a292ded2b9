//! The `config.ini` format: reading the settings out of the file's text,
//! and writing a configuration back as text.
use vstd::prelude::*;
use crate::text::{
    chars_of, find_char, first_at, first_index, has_char, is_white, lemma_first_at_unique,
    push_char, range_equals, string_from_range, strip, strip_back, strip_front, strip_range,
    strippable, trim, trim_quotes,
};

verus! {

/// Refresh interval, in seconds, used when the file sets no valid one.
pub const DEFAULT_REFRESH_SECONDS: u64 = 2;

/// Shortest refresh interval the file can set, in seconds.
pub const MIN_REFRESH_SECONDS: u64 = 1;

/// Longest refresh interval the file can set, in seconds.
pub const MAX_REFRESH_SECONDS: u64 = 60;

/// What the configuration file says, as mathematical values.
pub struct SettingsView {
    pub service_name: Option<Seq<char>>,
    pub refresh_seconds: u64,
}

/// The settings read from a configuration file. `service_name` is `None`
/// when the file names no usable service, in which case the caller falls
/// back to detection.
pub struct ConfigSettings {
    pub service_name: Option<String>,
    pub refresh_seconds: u64,
}

impl View for ConfigSettings {
    type V = SettingsView;

    open spec fn view(&self) -> SettingsView {
        SettingsView {
            service_name: match self.service_name {
                Some(name) => Some(name@),
                None => None,
            },
            refresh_seconds: self.refresh_seconds,
        }
    }
}

/// The configuration the tray app runs with.
pub struct Config {
    pub service_name: String,
    pub refresh_seconds: u64,
}

// ----------------------------------------------------------------------
// Numbers
// ----------------------------------------------------------------------

/// `c` is an ASCII decimal digit.
pub open spec fn is_digit(c: char) -> bool {
    '0' <= c && c <= '9'
}

/// The value of the decimal digit `c`.
pub open spec fn digit_value(c: char) -> int {
    (c as int) - ('0' as int)
}

/// Every character of `s` is a decimal digit.
pub open spec fn all_digits(s: Seq<char>) -> bool {
    forall|i: int| 0 <= i < s.len() ==> is_digit(#[trigger] s[i])
}

/// The number that the digits `s` spell in base ten.
pub open spec fn digits_value(s: Seq<char>) -> int
    decreases s.len(),
{
    if s.len() == 0 {
        0
    } else {
        digits_value(s.drop_last()) * 10 + digit_value(s.last())
    }
}

/// `s` without one leading `+`.
pub open spec fn unsigned_digits(s: Seq<char>) -> Seq<char> {
    if s.len() > 0 && s[0] == '+' {
        s.drop_first()
    } else {
        s
    }
}

/// What `s.parse::<u64>()` gives: an optional `+`, then one or more decimal
/// digits whose value fits in a `u64`; anything else is refused.
pub open spec fn parse_u64_spec(s: Seq<char>) -> Option<u64> {
    let d = unsigned_digits(s);
    if d.len() > 0 && all_digits(d) && digits_value(d) <= u64::MAX {
        Some(digits_value(d) as u64)
    } else {
        None
    }
}

/// The decimal digit for `d < 10`.
pub open spec fn digit_char(d: nat) -> char {
    ((('0' as int) + d) as u8) as char
}

/// The decimal spelling of `n`, without leading zeros.
pub open spec fn decimal(n: nat) -> Seq<char>
    decreases n,
{
    if n < 10 {
        seq![digit_char(n)]
    } else {
        decimal(n / 10).push(digit_char(n % 10))
    }
}

proof fn lemma_digits_value_nonneg(s: Seq<char>)
    requires
        all_digits(s),
    ensures
        digits_value(s) >= 0,
    decreases s.len(),
{
    if s.len() > 0 {
        assert(all_digits(s.drop_last())) by {
            assert forall|i: int| 0 <= i < s.drop_last().len() implies is_digit(
                #[trigger] s.drop_last()[i],
            ) by {
                assert(s.drop_last()[i] == s[i]);
            }
        }
        lemma_digits_value_nonneg(s.drop_last());
        assert(is_digit(s[s.len() - 1]));
    }
}

/// A prefix of a digit string is worth no more than the whole.
proof fn lemma_digits_prefix_le(s: Seq<char>, i: int)
    requires
        all_digits(s),
        0 <= i <= s.len(),
    ensures
        digits_value(s.take(i)) <= digits_value(s),
    decreases s.len(),
{
    if i < s.len() {
        let t = s.drop_last();
        assert(all_digits(t)) by {
            assert forall|k: int| 0 <= k < t.len() implies is_digit(#[trigger] t[k]) by {
                assert(t[k] == s[k]);
            }
        }
        lemma_digits_prefix_le(t, i);
        assert(t.take(i) =~= s.take(i));
        lemma_digits_value_nonneg(t);
        assert(is_digit(s[s.len() - 1]));
    } else {
        assert(s.take(i) =~= s);
    }
}

/// The decimal spelling of `n` is a digit string worth `n`.
pub proof fn lemma_decimal(n: nat)
    ensures
        decimal(n).len() > 0,
        all_digits(decimal(n)),
        digits_value(decimal(n)) == n,
        decimal(n)[0] != '+',
    decreases n,
{
    if n < 10 {
        assert(decimal(n).drop_last() =~= Seq::<char>::empty());
        assert(digit_value(digit_char(n)) == n);
        assert(digits_value(decimal(n).drop_last()) == 0);
        assert(decimal(n).last() == digit_char(n));
    } else {
        assert(digit_value(digit_char(n % 10)) == n % 10);
        lemma_decimal(n / 10);
        let d = decimal(n / 10);
        assert(decimal(n).drop_last() =~= d);
        assert(decimal(n).last() == digit_char(n % 10));
        assert(digits_value(decimal(n)) == digits_value(d) * 10 + digit_value(digit_char(n % 10)));
        assert((n / 10) * 10 + n % 10 == n);
        assert forall|i: int| 0 <= i < decimal(n).len() implies is_digit(
            #[trigger] decimal(n)[i],
        ) by {
            if i < d.len() {
                assert(decimal(n)[i] == d[i]);
            }
        }
    }
}

/// Reading back the decimal spelling of a `u64` gives the number again.
pub proof fn lemma_parse_decimal(n: u64)
    ensures
        parse_u64_spec(decimal(n as nat)) == Some(n),
{
    lemma_decimal(n as nat);
}

/// Reads `v[lo..hi]` as `str::parse::<u64>` does.
pub fn parse_u64_range(v: &Vec<char>, lo: usize, hi: usize) -> (r: Option<u64>)
    requires
        lo <= hi <= v.len(),
    ensures
        r == parse_u64_spec(v@.subrange(lo as int, hi as int)),
{
    let ghost s = v@.subrange(lo as int, hi as int);
    let mut start = lo;
    if start < hi && v[start] == '+' {
        start = start + 1;
    }
    let ghost d = v@.subrange(start as int, hi as int);
    assert(unsigned_digits(s) =~= d);
    if start == hi {
        return None;
    }
    let mut value: u64 = 0;
    let mut i = start;
    while i < hi
        invariant
            lo <= start <= i <= hi <= v.len(),
            s == v@.subrange(lo as int, hi as int),
            d == v@.subrange(start as int, hi as int),
            unsigned_digits(s) == d,
            start < hi,
            all_digits(d.take(i - start)),
            value == digits_value(d.take(i - start)),
        decreases hi - i,
    {
        let c = v[i];
        if !('0' <= c && c <= '9') {
            assert(d[i - start] == c);
            assert(!is_digit(d[i - start]));
            assert(!all_digits(d));
            assert(parse_u64_spec(s) is None);
            return None;
        }
        let ghost k = (i - start) as int;
        assert(d.take(k + 1).drop_last() =~= d.take(k));
        assert(d.take(k + 1).last() == c);
        let digit = ((c as u32) - ('0' as u32)) as u64;
        assert(digit == digit_value(c));
        assert(digits_value(d.take(k + 1)) == value * 10 + digit);
        let next = match value.checked_mul(10) {
            Some(m) => m.checked_add(digit),
            None => None,
        };
        match next {
            Some(n) => {
                assert(all_digits(d.take(k + 1))) by {
                    assert forall|j: int| 0 <= j < k + 1 implies is_digit(
                        #[trigger] d.take(k + 1)[j],
                    ) by {
                        if j < k {
                            assert(d.take(k + 1)[j] == d.take(k)[j]);
                        }
                    }
                }
                value = n;
            },
            None => {
                proof {
                    if all_digits(d) {
                        lemma_digits_prefix_le(d, k + 1);
                    }
                    assert(parse_u64_spec(s) is None);
                }
                return None;
            },
        }
        i = i + 1;
    }
    assert(d.take(i - start) =~= d);
    Some(value)
}

/// Appends the decimal spelling of `n` to `s`.
fn push_decimal(s: &mut String, n: u64)
    ensures
        final(s)@ == old(s)@ + decimal(n as nat),
    decreases n,
{
    if n >= 10 {
        push_decimal(s, n / 10);
    }
    let d = (n % 10) as u8;
    push_char(s, (48u8 + d) as char);
    proof {
        assert(('0' as int) == 48);
        assert(digit_char((n % 10) as nat) == (48u8 + d) as char);
        if n >= 10 {
            assert(old(s)@ + decimal(n as nat) =~= (old(s)@ + decimal((n / 10) as nat)).push(
                digit_char((n % 10) as nat),
            ));
        } else {
            assert(old(s)@ + decimal(n as nat) =~= old(s)@.push(digit_char(n as nat)));
        }
    }
}

// ----------------------------------------------------------------------
// Reading the file
// ----------------------------------------------------------------------

/// The settings in force before the file is read.
pub open spec fn initial_settings() -> SettingsView {
    SettingsView { service_name: None, refresh_seconds: DEFAULT_REFRESH_SECONDS }
}

/// A refresh interval brought into `MIN_REFRESH_SECONDS..=MAX_REFRESH_SECONDS`.
pub open spec fn clamp_refresh(n: u64) -> u64 {
    if n < MIN_REFRESH_SECONDS {
        MIN_REFRESH_SECONDS
    } else if n > MAX_REFRESH_SECONDS {
        MAX_REFRESH_SECONDS
    } else {
        n
    }
}

/// The settings after one line of the file. The line is trimmed; blank
/// lines and lines starting with `#` or `;` are comments; otherwise the line
/// splits at its first `=` into a trimmed key and a value that is trimmed and
/// then loses its surrounding double quotes. A non-empty `service_name`
/// replaces the service name; a `refresh_interval_seconds` that reads as a
/// `u64` replaces the interval, clamped to 1..=60. Anything else is ignored.
pub open spec fn apply_line(acc: SettingsView, raw: Seq<char>) -> SettingsView {
    let line = trim(raw);
    if line.len() == 0 || line[0] == '#' || line[0] == ';' {
        acc
    } else if has_char(line, '=') {
        let k = first_index(line, '=');
        let key = trim(line.take(k));
        let value = trim_quotes(trim(line.skip(k + 1)));
        if key == "service_name"@ && value.len() > 0 {
            SettingsView { service_name: Some(value), refresh_seconds: acc.refresh_seconds }
        } else if key == "refresh_interval_seconds"@ {
            match parse_u64_spec(value) {
                Some(n) => SettingsView {
                    service_name: acc.service_name,
                    refresh_seconds: clamp_refresh(n),
                },
                None => acc,
            }
        } else {
            acc
        }
    } else {
        acc
    }
}

/// The settings after every line of `text`, lines being separated by `\n`
/// (a `\r` before the `\n` is removed by the trimming of each line).
pub open spec fn settings_after(acc: SettingsView, text: Seq<char>) -> SettingsView
    decreases text.len(),
{
    if has_char(text, '\n') {
        let k = first_index(text, '\n');
        settings_after(apply_line(acc, text.take(k)), text.skip(k + 1))
    } else {
        apply_line(acc, text)
    }
}

/// The settings that a configuration file with contents `text` gives: a
/// service name made only of whitespace counts as none.
pub open spec fn config_settings(text: Seq<char>) -> SettingsView {
    let r = settings_after(initial_settings(), text);
    SettingsView {
        service_name: match r.service_name {
            Some(name) => if trim(name).len() > 0 {
                Some(name)
            } else {
                None
            },
            None => None,
        },
        refresh_seconds: r.refresh_seconds,
    }
}

/// Applies the line `v[lo..hi]` to `acc`.
fn apply_line_range(acc: &mut ConfigSettings, v: &Vec<char>, lo: usize, hi: usize)
    requires
        lo <= hi <= v.len(),
        MIN_REFRESH_SECONDS <= old(acc).refresh_seconds <= MAX_REFRESH_SECONDS,
    ensures
        final(acc)@ == apply_line(old(acc)@, v@.subrange(lo as int, hi as int)),
        MIN_REFRESH_SECONDS <= final(acc).refresh_seconds <= MAX_REFRESH_SECONDS,
{
    let ghost raw = v@.subrange(lo as int, hi as int);
    let (a, b) = strip_range(v, lo, hi, false);
    let ghost line = v@.subrange(a as int, b as int);
    if a == b || v[a] == '#' || v[a] == ';' {
        return;
    }
    match find_char(v, a, b, '=') {
        None => {},
        Some(e) => {
            proof {
                lemma_first_at_unique(line, '=', e - a);
                assert(line.take(e - a) =~= v@.subrange(a as int, e as int));
                assert(line.skip(e - a + 1) =~= v@.subrange(e + 1, b as int));
            }
            let (ka, kb) = strip_range(v, a, e, false);
            let (ta, tb) = strip_range(v, e + 1, b, false);
            let (va, vb) = strip_range(v, ta, tb, true);
            let ghost key = v@.subrange(ka as int, kb as int);
            let ghost value = v@.subrange(va as int, vb as int);
            assert(key == trim(line.take(e - a)));
            assert(value == trim_quotes(trim(line.skip(e - a + 1))));
            if range_equals(v, ka, kb, "service_name") && va < vb {
                acc.service_name = Some(string_from_range(v, va, vb));
            } else if range_equals(v, ka, kb, "refresh_interval_seconds") {
                match parse_u64_range(v, va, vb) {
                    Some(n) => {
                        acc.refresh_seconds =
                            if n < MIN_REFRESH_SECONDS {
                                MIN_REFRESH_SECONDS
                            } else if n > MAX_REFRESH_SECONDS {
                                MAX_REFRESH_SECONDS
                            } else {
                                n
                            };
                    },
                    None => {},
                }
            }
        },
    }
}

/// Reads the settings out of the text of a configuration file.
pub fn parse_config(content: &str) -> (settings: ConfigSettings)
    ensures
        settings@ == config_settings(content@),
        MIN_REFRESH_SECONDS <= settings.refresh_seconds <= MAX_REFRESH_SECONDS,
        settings@.service_name matches Some(name) ==> trim(name).len() > 0,
{
    let text = chars_of(content);
    let len = text.len();
    let mut acc = ConfigSettings { service_name: None, refresh_seconds: DEFAULT_REFRESH_SECONDS };
    let mut start: usize = 0;
    assert(text@.skip(0) =~= text@);
    loop
        invariant
            start <= len == text.len(),
            settings_after(initial_settings(), text@) == settings_after(acc@, text@.skip(start as int)),
            MIN_REFRESH_SECONDS <= acc.refresh_seconds <= MAX_REFRESH_SECONDS,
        ensures
            settings_after(initial_settings(), text@) == acc@,
            MIN_REFRESH_SECONDS <= acc.refresh_seconds <= MAX_REFRESH_SECONDS,
        decreases len - start,
    {
        let ghost rest = text@.skip(start as int);
        match find_char(&text, start, len, '\n') {
            Some(k) => {
                proof {
                    assert(text@.subrange(start as int, len as int) =~= rest);
                    lemma_first_at_unique(rest, '\n', k - start);
                    assert(rest.take(k - start) =~= text@.subrange(start as int, k as int));
                    assert(rest.skip(k - start + 1) =~= text@.skip(k + 1));
                }
                apply_line_range(&mut acc, &text, start, k);
                start = k + 1;
            },
            None => {
                assert(text@.subrange(start as int, len as int) =~= rest);
                apply_line_range(&mut acc, &text, start, len);
                break;
            },
        }
    }
    let name = match acc.service_name {
        Some(name) => {
            let chars = chars_of(name.as_str());
            let (a, b) = strip_range(&chars, 0, chars.len(), false);
            assert(chars@.subrange(0, chars@.len() as int) =~= chars@);
            if a < b {
                Some(name)
            } else {
                None
            }
        },
        None => None,
    };
    ConfigSettings { service_name: name, refresh_seconds: acc.refresh_seconds }
}

// ----------------------------------------------------------------------
// Writing the file
// ----------------------------------------------------------------------

/// The three comment lines at the top of the file.
pub open spec fn header_line_1() -> Seq<char> {
    "# MySQL Tray Controller configuration"@
}

pub open spec fn header_line_2() -> Seq<char> {
    "# Use the Windows SERVICE NAME, not its display name."@
}

pub open spec fn header_line_3() -> Seq<char> {
    "# Find it in services.msc -> MySQL service -> Properties."@
}

/// The text of the configuration file that stores `name` and `seconds`:
/// the comment lines, then `service_name=` and `refresh_interval_seconds=`
/// lines, each line ended by `\n`.
pub open spec fn config_text(name: Seq<char>, seconds: u64) -> Seq<char> {
    header_line_1() + "\n"@ + header_line_2() + "\n"@ + header_line_3() + "\n"@ + "service_name="@
        + name + "\n"@ + "refresh_interval_seconds="@ + decimal(seconds as nat) + "\n"@
}

/// No character of `s` is `c`.
pub open spec fn lacks_char(s: Seq<char>, c: char) -> bool {
    forall|i: int| 0 <= i < s.len() ==> s[i] != c
}

/// A service name that comes back unchanged from the file: not empty, on a
/// single line, with no whitespace and no double quote at either end.
pub open spec fn storable_service_name(name: Seq<char>) -> bool {
    &&& name.len() > 0
    &&& lacks_char(name, '\n')
    &&& trim(name) == name
    &&& trim_quotes(name) == name
}

proof fn lemma_strip_len(s: Seq<char>, quote: bool)
    ensures
        strip_front(s, quote).len() <= s.len(),
        strip_back(s, quote).len() <= s.len(),
    decreases s.len(),
{
    if s.len() > 0 {
        lemma_strip_len(s.drop_first(), quote);
        lemma_strip_len(s.drop_last(), quote);
    }
}

/// A string that stripping leaves alone has no strippable end.
proof fn lemma_strip_fixed_ends(s: Seq<char>, quote: bool)
    requires
        s.len() > 0,
        strip(s, quote) == s,
    ensures
        !strippable(s[0], quote),
        !strippable(s.last(), quote),
{
    lemma_strip_len(s, quote);
    lemma_strip_len(strip_front(s, quote), quote);
    if strippable(s[0], quote) {
        lemma_strip_len(s.drop_first(), quote);
        assert(strip_front(s, quote).len() < s.len());
    }
    assert(strip_front(s, quote) == s);
    if strippable(s.last(), quote) {
        lemma_strip_len(s.drop_last(), quote);
        assert(strip_back(s, quote).len() < s.len());
    }
}

/// A string with no strippable end is left alone by stripping.
proof fn lemma_strip_fixed(s: Seq<char>, quote: bool)
    requires
        s.len() > 0,
        !strippable(s[0], quote),
        !strippable(s.last(), quote),
    ensures
        strip(s, quote) == s,
{
}

/// Reading one line, ended by `\n`, and then the rest.
proof fn lemma_next_line(acc: SettingsView, line: Seq<char>, rest: Seq<char>)
    requires
        lacks_char(line, '\n'),
    ensures
        settings_after(acc, line + "\n"@ + rest) == settings_after(apply_line(acc, line), rest),
{
    reveal_strlit("\n");
    let t = line + "\n"@ + rest;
    assert(first_at(t, '\n', line.len() as int));
    lemma_first_at_unique(t, '\n', line.len() as int);
    assert(t.take(line.len() as int) =~= line);
    assert(t.skip(line.len() + 1int) =~= rest);
}

/// A comment line leaves the settings as they are.
proof fn lemma_comment_line(acc: SettingsView, line: Seq<char>)
    requires
        line.len() > 0,
        line[0] == '#',
        !is_white(line.last()),
    ensures
        apply_line(acc, line) == acc,
{
    lemma_strip_fixed(line, false);
}

/// The `service_name=` line of a stored file sets the service name.
proof fn lemma_service_line(acc: SettingsView, name: Seq<char>)
    requires
        storable_service_name(name),
    ensures
        apply_line(acc, "service_name="@ + name) == (SettingsView {
            service_name: Some(name),
            refresh_seconds: acc.refresh_seconds,
        }),
{
    reveal_strlit("service_name=");
    reveal_strlit("service_name");
    let line = "service_name="@ + name;
    lemma_strip_fixed_ends(name, false);
    assert(line.last() == name.last());
    lemma_strip_fixed(line, false);
    assert(first_at(line, '=', 12));
    lemma_first_at_unique(line, '=', 12);
    assert(line.take(12) =~= "service_name"@);
    lemma_strip_fixed("service_name"@, false);
    assert(line.skip(13) =~= name);
}

/// The `refresh_interval_seconds=` line of a stored file sets the interval.
proof fn lemma_refresh_line(acc: SettingsView, seconds: u64)
    requires
        MIN_REFRESH_SECONDS <= seconds <= MAX_REFRESH_SECONDS,
    ensures
        apply_line(acc, "refresh_interval_seconds="@ + decimal(seconds as nat)) == (SettingsView {
            service_name: acc.service_name,
            refresh_seconds: seconds,
        }),
{
    reveal_strlit("refresh_interval_seconds=");
    reveal_strlit("refresh_interval_seconds");
    reveal_strlit("service_name");
    let digits = decimal(seconds as nat);
    let line = "refresh_interval_seconds="@ + digits;
    lemma_decimal(seconds as nat);
    assert(is_digit(digits[0]));
    assert(is_digit(digits.last()));
    assert(line.last() == digits.last());
    lemma_strip_fixed(line, false);
    assert(first_at(line, '=', 24));
    lemma_first_at_unique(line, '=', 24);
    assert(line.take(24) =~= "refresh_interval_seconds"@);
    lemma_strip_fixed("refresh_interval_seconds"@, false);
    assert(line.skip(25) =~= digits);
    lemma_strip_fixed(digits, false);
    lemma_strip_fixed(digits, true);
    assert(trim_quotes(trim(line.skip(25))) == digits);
    assert(trim(line.take(24)) == "refresh_interval_seconds"@);
    assert("refresh_interval_seconds"@ != "service_name"@);
    lemma_parse_decimal(seconds);
}

/// Saving a configuration and reading the file back gives the same
/// configuration, for a service name that can stand on its line unchanged
/// and an interval within the range that reading allows.
pub proof fn lemma_config_round_trip(name: Seq<char>, seconds: u64)
    requires
        storable_service_name(name),
        MIN_REFRESH_SECONDS <= seconds <= MAX_REFRESH_SECONDS,
    ensures
        config_settings(config_text(name, seconds)) == (SettingsView {
            service_name: Some(name),
            refresh_seconds: seconds,
        }),
{
    reveal_strlit("# MySQL Tray Controller configuration");
    reveal_strlit("# Use the Windows SERVICE NAME, not its display name.");
    reveal_strlit("# Find it in services.msc -> MySQL service -> Properties.");
    reveal_strlit("service_name=");
    reveal_strlit("refresh_interval_seconds=");
    let nl = "\n"@;
    let l1 = header_line_1();
    let l2 = header_line_2();
    let l3 = header_line_3();
    let l4 = "service_name="@ + name;
    let l5 = "refresh_interval_seconds="@ + decimal(seconds as nat);
    let empty = Seq::<char>::empty();
    let r5 = l5 + nl + empty;
    let r4 = l4 + nl + r5;
    let r3 = l3 + nl + r4;
    let r2 = l2 + nl + r3;
    let r1 = l1 + nl + r2;
    assert(config_text(name, seconds) =~= r1);

    let a0 = initial_settings();
    lemma_next_line(a0, l1, r2);
    lemma_comment_line(a0, l1);
    lemma_next_line(a0, l2, r3);
    lemma_comment_line(a0, l2);
    lemma_next_line(a0, l3, r4);
    lemma_comment_line(a0, l3);

    assert(lacks_char(l4, '\n')) by {
        assert forall|i: int| 0 <= i < l4.len() implies l4[i] != '\n' by {
            if i >= 13 {
                assert(l4[i] == name[i - 13]);
            }
        }
    }
    lemma_next_line(a0, l4, r5);
    lemma_service_line(a0, name);
    let a4 = SettingsView { service_name: Some(name), refresh_seconds: a0.refresh_seconds };

    lemma_decimal(seconds as nat);
    let digits = decimal(seconds as nat);
    assert(lacks_char(l5, '\n')) by {
        assert forall|i: int| 0 <= i < l5.len() implies l5[i] != '\n' by {
            if i >= 25 {
                assert(l5[i] == digits[i - 25]);
                assert(is_digit(digits[i - 25]));
            }
        }
    }
    lemma_next_line(a4, l5, empty);
    lemma_refresh_line(a4, seconds);
    let a5 = SettingsView { service_name: Some(name), refresh_seconds: seconds };
    assert(!first_at(empty, '\n', first_index(empty, '\n')));
    assert(settings_after(a5, empty) == apply_line(a5, empty));
    assert(trim(empty) =~= empty);
    assert(settings_after(initial_settings(), config_text(name, seconds)) == a5);
}

impl Config {
    /// The configuration of a freshly created file: the given service and the
    /// default refresh interval.
    pub fn with_service(service_name: String) -> (c: Config)
        ensures
            c.service_name@ == service_name@,
            c.refresh_seconds == DEFAULT_REFRESH_SECONDS,
    {
        Config { service_name, refresh_seconds: DEFAULT_REFRESH_SECONDS }
    }

    /// The configuration that `settings` give, with `detected` as the service
    /// when the file names none.
    pub fn from_settings(settings: ConfigSettings, detected: String) -> (c: Config)
        ensures
            c.service_name@ == match settings@.service_name {
                Some(name) => name,
                None => detected@,
            },
            c.refresh_seconds == settings.refresh_seconds,
    {
        let service_name = match settings.service_name {
            Some(name) => name,
            None => detected,
        };
        Config { service_name, refresh_seconds: settings.refresh_seconds }
    }

    /// The text of the configuration file that stores this configuration.
    pub fn file_contents(&self) -> (text: String)
        ensures
            text@ == config_text(self.service_name@, self.refresh_seconds),
    {
        let mut text = String::new();
        text.append("# MySQL Tray Controller configuration");
        text.append("\n");
        text.append("# Use the Windows SERVICE NAME, not its display name.");
        text.append("\n");
        text.append("# Find it in services.msc -> MySQL service -> Properties.");
        text.append("\n");
        text.append("service_name=");
        text.append(self.service_name.as_str());
        text.append("\n");
        text.append("refresh_interval_seconds=");
        push_decimal(&mut text, self.refresh_seconds);
        text.append("\n");
        assert(text@ =~= config_text(self.service_name@, self.refresh_seconds));
        text
    }
}

} // verus!
