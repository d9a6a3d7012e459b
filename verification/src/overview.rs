//! The values of the system overview that are computed from what the registry
//! and the system report: the OS name (corrected for Windows 11), the build
//! string, the CPU label, the uptime text and the drive roots that are probed.
use vstd::prelude::*;

use crate::sysinfo::{format_uptime, uptime_text};
use crate::text::{chars_of, is_whitespace, is_ws, string_of};

verus! {

broadcast use vstd::string::group_string_axioms;

/// The first Windows build that is Windows 11.
pub const WINDOWS_11_FIRST_BUILD: u32 = 22000;

/// The value of decimal digit `c`.
pub open spec fn digit_value(c: char) -> nat {
    ((c as u32) - ('0' as u32)) as nat
}

/// Whether `c` is an ASCII decimal digit.
pub open spec fn is_digit(c: char) -> bool {
    '0' as u32 <= c as u32 <= '9' as u32
}

/// Whether every character of `s` is a decimal digit.
pub open spec fn all_digits(s: Seq<char>) -> bool {
    forall|i: int| 0 <= i < s.len() ==> is_digit(#[trigger] s[i])
}

/// The number that the decimal digits `s` spell.
pub open spec fn digits_value(s: Seq<char>) -> nat
    decreases s.len(),
{
    if s.len() == 0 {
        0
    } else {
        digits_value(s.drop_last()) * 10 + digit_value(s.last())
    }
}

/// What `str::parse::<u32>` gives: an optional `+` followed by at least one
/// digit and nothing else, whose value fits in `u32`.
pub open spec fn parsed_u32(s: Seq<char>) -> Option<u32> {
    let body = if s.len() > 0 && s[0] == '+' { s.drop_first() } else { s };
    if body.len() > 0 && all_digits(body) && digits_value(body) <= u32::MAX {
        Some(digits_value(body) as u32)
    } else {
        None
    }
}

/// Whether `s` contains `part` somewhere.
pub open spec fn contains_seq(s: Seq<char>, part: Seq<char>) -> bool {
    exists|i: int| 0 <= i <= s.len() - part.len() && #[trigger] s.subrange(i, i + part.len()) == part
}

/// `s` with every non-overlapping occurrence of `from`, scanning left to
/// right, replaced by `to` (what `str::replace` returns). An empty `from`
/// occurs before every character and at the end.
pub open spec fn replaced(s: Seq<char>, from: Seq<char>, to: Seq<char>) -> Seq<char>
    decreases s.len(),
{
    if from.len() == 0 {
        if s.len() == 0 {
            to
        } else {
            to + seq![s[0]] + replaced(s.drop_first(), from, to)
        }
    } else if s.len() < from.len() {
        s
    } else if s.take(from.len() as int) == from {
        to + replaced(s.skip(from.len() as int), from, to)
    } else {
        seq![s[0]] + replaced(s.drop_first(), from, to)
    }
}

/// The OS name as shown: the registry's product name, with `Windows 10`
/// changed to `Windows 11` when the build is a Windows 11 build (the product
/// name was never updated for Windows 11). A missing or unreadable build counts
/// as build 0.
pub open spec fn os_name_text(product_name: Seq<char>, current_build: Option<Seq<char>>) -> Seq<
    char,
> {
    let build: nat = match current_build {
        Some(b) => match parsed_u32(b) {
            Some(v) => v as nat,
            None => 0,
        },
        None => 0,
    };
    if build >= WINDOWS_11_FIRST_BUILD && contains_seq(product_name, "Windows 10"@) {
        replaced(product_name, "Windows 10"@, "Windows 11"@)
    } else {
        product_name
    }
}

/// Whether `cs[at..at + part.len()]` equals `part`.
fn matches_at(cs: &Vec<char>, at: usize, part: &Vec<char>) -> (b: bool)
    requires
        at + part.len() <= cs.len(),
    ensures
        b == (cs@.subrange(at as int, at + part@.len()) == part@),
{
    let end: usize = at + part.len();
    let mut j: usize = 0;
    while j < part.len()
        invariant
            end == at + part@.len(),
            end <= cs@.len(),
            j <= part@.len(),
            forall|k: int| 0 <= k < j ==> cs@[at + k] == part@[k],
        decreases part.len() - j,
    {
        if cs[at + j] != part[j] {
            assert(cs@.subrange(at as int, at + part@.len())[j as int] != part@[j as int]);
            return false;
        }
        j += 1;
    }
    assert(cs@.subrange(at as int, at + part@.len()) =~= part@);
    true
}

/// Whether `s` contains `part`.
pub fn contains_str(s: &str, part: &str) -> (b: bool)
    ensures
        b == contains_seq(s@, part@),
{
    let cs = chars_of(s);
    let ps = chars_of(part);
    if ps.len() == 0 {
        assert(s@.subrange(0, 0int + part@.len()) =~= part@);
        return true;
    }
    if ps.len() > cs.len() {
        return false;
    }
    let last: usize = cs.len() - ps.len();
    let mut i: usize = 0;
    while i <= last
        invariant
            last < cs.len(),
            cs@ == s@,
            ps@ == part@,
            1 <= ps@.len() <= cs@.len(),
            last == cs@.len() - ps@.len(),
            i <= last + 1,
            forall|k: int| 0 <= k < i ==> #[trigger] cs@.subrange(k, k + ps@.len()) != ps@,
        decreases last + 1 - i,
    {
        if matches_at(&cs, i, &ps) {
            return true;
        }
        i += 1;
    }
    false
}

/// `s` with every occurrence of `from` replaced by `to`.
pub fn replace_all(s: &str, from: &str, to: &str) -> (r: String)
    ensures
        r@ == replaced(s@, from@, to@),
{
    let cs = chars_of(s);
    let fs = chars_of(from);
    let m = fs.len();
    if m == 0 {
        return insert_everywhere(&cs, to, Ghost(from@));
    }
    let mut out = String::new();
    let mut i: usize = 0;
    assert(cs@.skip(0) =~= cs@);
    while i < cs.len()
        invariant
            cs@ == s@,
            fs@ == from@,
            m == fs@.len(),
            m > 0,
            i <= cs@.len(),
            out@ + replaced(cs@.skip(i as int), from@, to@) == replaced(s@, from@, to@),
        decreases cs.len() - i,
    {
        let ghost rest = cs@.skip(i as int);
        if m <= cs.len() - i && matches_at(&cs, i, &fs) {
            assert(rest.take(m as int) =~= cs@.subrange(i as int, i + m));
            assert(rest.skip(m as int) =~= cs@.skip(i + m));
            out.append(to);
            assert(out@ + replaced(cs@.skip(i + m), from@, to@) =~= replaced(s@, from@, to@));
            i = i + m;
        } else {
            proof {
                if rest.len() >= m {
                    assert(rest.take(m as int) =~= cs@.subrange(i as int, i + m));
                }
            }
            assert(rest.drop_first() =~= cs@.skip(i + 1));
            assert(rest[0] == cs@[i as int]);
            out.push(cs[i]);
            assert(out@ + replaced(cs@.skip(i + 1), from@, to@) =~= replaced(s@, from@, to@));
            i = i + 1;
        }
    }
    assert(cs@.skip(i as int) =~= Seq::<char>::empty());
    assert(out@ + Seq::<char>::empty() =~= out@);
    out
}

/// `to` before every character of `cs` and at its end: the replacement of an
/// empty pattern.
fn insert_everywhere(cs: &Vec<char>, to: &str, Ghost(empty): Ghost<Seq<char>>) -> (r: String)
    requires
        empty.len() == 0,
    ensures
        r@ == replaced(cs@, empty, to@),
{
    let mut out = String::new();
    let mut i: usize = 0;
    assert(cs@.skip(0) =~= cs@);
    while i < cs.len()
        invariant
            empty.len() == 0,
            i <= cs@.len(),
            out@ + replaced(cs@.skip(i as int), empty, to@) == replaced(cs@, empty, to@),
        decreases cs.len() - i,
    {
        let ghost rest = cs@.skip(i as int);
        assert(rest.drop_first() =~= cs@.skip(i + 1));
        assert(rest[0] == cs@[i as int]);
        out.append(to);
        out.push(cs[i]);
        assert(out@ + replaced(cs@.skip(i + 1), empty, to@) =~= replaced(cs@, empty, to@));
        i += 1;
    }
    assert(cs@.skip(i as int) =~= Seq::<char>::empty());
    out.append(to);
    assert(out@ =~= replaced(cs@, empty, to@));
    out
}

/// `s` parsed as a `u32` the way `str::parse::<u32>` does.
pub fn parse_u32(s: &str) -> (value: Option<u32>)
    ensures
        value == parsed_u32(s@),
{
    let cs = chars_of(s);
    let start: usize = if cs.len() > 0 && cs[0] == '+' { 1 } else { 0 };
    let ghost body = if s@.len() > 0 && s@[0] == '+' { s@.drop_first() } else { s@ };
    assert(body =~= cs@.skip(start as int));
    if start == cs.len() {
        return None;
    }
    let mut value: u64 = 0;
    let mut i: usize = start;
    assert(body.take(0) =~= Seq::<char>::empty());
    while i < cs.len()
        invariant
            cs@ == s@,
            body == cs@.skip(start as int),
            body == (if s@.len() > 0 && s@[0] == '+' { s@.drop_first() } else { s@ }),
            start <= i <= cs@.len(),
            value == digits_value(body.take(i - start)),
            value <= u32::MAX,
            forall|k: int| 0 <= k < i - start ==> is_digit(#[trigger] body[k]),
        decreases cs.len() - i,
    {
        let c = cs[i];
        assert(body[i - start] == c);
        if !((c as u32) >= ('0' as u32) && (c as u32) <= ('9' as u32)) {
            assert(!is_digit(body[i - start]));
            return None;
        }
        assert(body.take(i - start + 1).drop_last() =~= body.take(i - start));
        assert(body.take(i - start + 1).last() == c);
        value = value * 10 + ((c as u32) - ('0' as u32)) as u64;
        i = i + 1;
        if value > 0xFFFF_FFFF {
            proof {
                if all_digits(body) {
                    lemma_digits_value_grows(body, i - start);
                }
            }
            return None;
        }
    }
    assert(body.take(i - start) =~= body);
    Some(value as u32)
}

/// The value of a run of digits is at least that of any of its prefixes.
proof fn lemma_digits_value_grows(s: Seq<char>, k: int)
    requires
        0 <= k <= s.len(),
        all_digits(s),
    ensures
        digits_value(s) >= digits_value(s.take(k)),
    decreases s.len(),
{
    if k < s.len() {
        assert(all_digits(s.drop_last())) by {
            assert forall|i: int| 0 <= i < s.drop_last().len() implies is_digit(
                #[trigger] s.drop_last()[i],
            ) by {
                assert(s.drop_last()[i] == s[i]);
            }
        }
        lemma_digits_value_grows(s.drop_last(), k);
        assert(s.drop_last().take(k) =~= s.take(k));
    } else {
        assert(s.take(k) =~= s);
    }
}

/// The OS name as shown: `Windows 10` in the product name becomes
/// `Windows 11` from build 22000 on.
pub fn os_name(product_name: &str, current_build: Option<&str>) -> (name: String)
    ensures
        name@ == os_name_text(
            product_name@,
            match current_build {
                Some(b) => Some(b@),
                None => None,
            },
        ),
{
    let build: u32 = match current_build {
        Some(b) => match parse_u32(b) {
            Some(v) => v,
            None => 0,
        },
        None => 0,
    };
    if build >= WINDOWS_11_FIRST_BUILD && contains_str(product_name, "Windows 10") {
        replace_all(product_name, "Windows 10", "Windows 11")
    } else {
        String::from_str(product_name)
    }
}

/// The OS build as shown: `<build>.<UBR>` when the update build revision is
/// known, else the build alone.
pub fn os_build(current_build: &str, ubr: Option<u32>) -> (text: String)
    ensures
        ubr matches Some(u) ==> text@ == current_build@ + seq!['.'] + crate::text::dec(u as nat),
        ubr is None ==> text@ == current_build@,
{
    let mut text = String::from_str(current_build);
    if let Some(u) = ubr {
        text.push('.');
        crate::text::push_decimal(&mut text, u as u64);
    }
    text
}

/// `s` without leading and trailing whitespace (what `str::trim` keeps).
pub open spec fn trimmed(s: Seq<char>) -> Seq<char> {
    crate::text::trim_end(trim_start(s))
}

/// `s` without leading whitespace.
pub open spec fn trim_start(s: Seq<char>) -> Seq<char>
    decreases s.len(),
{
    if s.len() > 0 && is_ws(s[0]) {
        trim_start(s.drop_first())
    } else {
        s
    }
}

/// The CPU label: the processor name without surrounding whitespace, or
/// `Unknown CPU` when the name could not be read.
pub fn cpu_label(processor_name: Option<&str>) -> (label: String)
    ensures
        processor_name matches Some(n) ==> label@ == trimmed(n@),
        processor_name is None ==> label@ == "Unknown CPU"@,
{
    match processor_name {
        None => String::from_str("Unknown CPU"),
        Some(n) => {
            let cs = chars_of(n);
            let mut a: usize = 0;
            assert(cs@.subrange(0, cs@.len() as int) =~= cs@);
            while a < cs.len() && is_whitespace(cs[a])
                invariant
                    cs@ == n@,
                    a <= cs@.len(),
                    trim_start(n@) == trim_start(cs@.subrange(a as int, cs@.len() as int)),
                decreases cs.len() - a,
            {
                assert(cs@.subrange(a as int, cs@.len() as int).drop_first() =~= cs@.subrange(
                    a + 1,
                    cs@.len() as int,
                ));
                a += 1;
            }
            let mut b: usize = cs.len();
            while b > a && is_whitespace(cs[b - 1])
                invariant
                    a <= b <= cs@.len(),
                    trimmed(n@) == crate::text::trim_end(cs@.subrange(a as int, b as int)),
                    cs@ == n@,
                    a == cs@.len() || !is_ws(cs@[a as int]),
                decreases b,
            {
                assert(cs@.subrange(a as int, b as int).drop_last() =~= cs@.subrange(
                    a as int,
                    b - 1,
                ));
                b -= 1;
            }
            string_of(cs.as_slice(), a, b)
        },
    }
}

/// The uptime text for a tick count in milliseconds: whole seconds, formatted.
pub fn uptime_from_millis(milliseconds: u64) -> (text: String)
    ensures
        text@ == uptime_text((milliseconds / 1000) as nat),
{
    format_uptime(milliseconds / 1000)
}

/// The `GetDriveTypeW` code of a fixed (non-removable) drive.
pub const DRIVE_FIXED: u32 = 3;

/// The root of the drive with the given letter, e.g. `C:\`.
pub fn drive_root(letter: char) -> (root: String)
    ensures
        root@ == seq![letter, ':', '\\'],
{
    let mut root = String::new();
    root.push(letter);
    root.push(':');
    root.push('\\');
    root
}

/// The roots the overview probes: `A:\` to `Z:\`, in order.
pub fn drive_roots() -> (roots: Vec<String>)
    ensures
        roots@.len() == 26,
        forall|i: int| 0 <= i < 26 ==> #[trigger] roots@[i]@ == seq![
            (('A' as u32) + i) as char,
            ':',
            '\\',
        ],
{
    let mut roots: Vec<String> = Vec::new();
    let mut code: u32 = 'A' as u32;
    while code <= 'Z' as u32
        invariant
            'A' as u32 <= code <= 'Z' as u32 + 1,
            roots@.len() == code - 'A' as u32,
            forall|i: int| 0 <= i < roots@.len() ==> #[trigger] roots@[i]@ == seq![
                (('A' as u32) + i) as char,
                ':',
                '\\',
            ],
        decreases 'Z' as u32 + 1 - code,
    {
        let letter = char_from_ascii(code);
        roots.push(drive_root(letter));
        code += 1;
    }
    roots
}

/// The character with the given ASCII uppercase-letter code.
fn char_from_ascii(code: u32) -> (c: char)
    requires
        'A' as u32 <= code <= 'Z' as u32,
    ensures
        c == code as char,
{
    let b: u8 = code as u8;
    b as char
}

/// Whether the drive should be listed: only fixed drives are.
pub fn is_fixed_drive(drive_type: u32) -> (b: bool)
    ensures
        b == (drive_type == DRIVE_FIXED),
{
    drive_type == DRIVE_FIXED
}

/// The decimal text of a number parses back to it.
proof fn lemma_dec_digits(n: nat)
    ensures
        crate::text::dec(n).len() > 0,
        all_digits(crate::text::dec(n)),
        digits_value(crate::text::dec(n)) == n,
    decreases n,
{
    let d = crate::text::digit(n % 10);
    assert(is_digit(d) && digit_value(d) == n % 10);
    if n >= 10 {
        lemma_dec_digits(n / 10);
        let s = crate::text::dec(n);
        assert(s.drop_last() =~= crate::text::dec(n / 10));
        assert forall|i: int| 0 <= i < s.len() implies is_digit(#[trigger] s[i]) by {
            if i < s.len() - 1 {
                assert(s[i] == crate::text::dec(n / 10)[i]);
            }
        }
        assert(s.last() == d);
        assert(digits_value(s) == digits_value(crate::text::dec(n / 10)) * 10 + digit_value(d));
        assert((n / 10) * 10 + n % 10 == n);
    } else {
        let s = crate::text::dec(n);
        assert(s.drop_last() =~= Seq::<char>::empty());
        assert(s.last() == d);
        assert(digits_value(s) == digits_value(s.drop_last()) * 10 + digit_value(d));
        assert(digits_value(Seq::<char>::empty()) == 0);
    }
}

/// `str::parse::<u32>` reads back the decimal text of any `u32`.
pub proof fn lemma_parse_u32_of_dec(b: u32)
    ensures
        parsed_u32(crate::text::dec(b as nat)) == Some(b),
{
    lemma_dec_digits(b as nat);
    let s = crate::text::dec(b as nat);
    assert(is_digit(s[0]));
    assert(s[0] != '+');
}

/// Windows 11 is recognised on every build from 22000 on, with no upper
/// bound: a product name that mentions `Windows 10` is shown with every
/// `Windows 10` replaced by `Windows 11`; before build 22000, and for a build
/// that cannot be read, the product name is shown as it is.
pub proof fn lemma_windows_11_from_build_22000(product_name: Seq<char>, build: u32)
    ensures
        build >= 22000 && contains_seq(product_name, "Windows 10"@) ==> os_name_text(
            product_name,
            Some(crate::text::dec(build as nat)),
        ) == replaced(product_name, "Windows 10"@, "Windows 11"@),
        build < 22000 ==> os_name_text(product_name, Some(crate::text::dec(build as nat)))
            == product_name,
        !contains_seq(product_name, "Windows 10"@) ==> os_name_text(
            product_name,
            Some(crate::text::dec(build as nat)),
        ) == product_name,
        os_name_text(product_name, None) == product_name,
{
    lemma_parse_u32_of_dec(build);
}

} // verus!
