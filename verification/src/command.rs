//! Building the elevated command line and decoding the console output captured
//! from a redirected child process.
use vstd::prelude::*;

use crate::text::{
    all_ws, chars_of, contains_whitespace, has_ws, is_blank, is_whitespace, is_ws, string_of, trim_end,
};

verus! {

broadcast use vstd::string::group_string_axioms;

/// A program and its arguments, used to describe what an operation runs.
#[derive(Debug, Clone, PartialEq, Eq)]
pub struct CommandSpec {
    /// The executable to run (e.g. `sfc`, `dism`).
    pub program: String,
    /// The arguments passed to `program`, one token per element.
    pub args: Vec<String>,
}

/// A command line to run through `cmd.exe`: either a program with discrete
/// arguments, or a raw multi-step script.
#[derive(Debug, Clone, PartialEq, Eq)]
pub enum CommandLine {
    /// A single program invoked with discrete arguments.
    Program(CommandSpec),
    /// A raw `cmd.exe` command line, used for multi-step sequences.
    Script(String),
}

/// A token as it appears on the command line: wrapped in double quotes when it
/// is empty or holds whitespace, unchanged otherwise.
pub open spec fn quoted(token: Seq<char>) -> Seq<char> {
    if token.len() == 0 || has_ws(token) {
        seq!['"'] + token + seq!['"']
    } else {
        token
    }
}

/// The arguments as they follow the program: each one after a space, quoted
/// when needed.
pub open spec fn rendered_args(args: Seq<Seq<char>>) -> Seq<char>
    decreases args.len(),
{
    if args.len() == 0 {
        Seq::empty()
    } else {
        rendered_args(args.drop_last()) + seq![' '] + quoted(args.last())
    }
}

/// The command portion of a command line, before any redirection.
pub open spec fn rendered(cmd: CommandLine) -> Seq<char> {
    match cmd {
        CommandLine::Program(spec) => quoted(spec.program@) + rendered_args(spec.args.deep_view()),
        CommandLine::Script(raw) => raw@,
    }
}

/// The `lpParameters` text that runs `cmd` through `cmd.exe` with stdout and
/// stderr redirected to `output_path`.
pub open spec fn elevated_parameters(cmd: CommandLine, output_path: Seq<char>) -> Seq<char> {
    "/d /c \"("@ + rendered(cmd) + ") > \""@ + output_path + "\" 2>&1\""@
}

impl CommandSpec {
    /// Builds a spec from a program name and its arguments.
    pub fn new(program: &str, args: &[&str]) -> (spec: Self)
        ensures
            spec.program@ == program@,
            spec.args.deep_view() == args.deep_view(),
    {
        let mut owned: Vec<String> = Vec::new();
        for i in 0..args.len()
            invariant
                owned@.len() == i,
                owned.deep_view() == args.deep_view().take(i as int),
        {
            let a: &str = args[i];
            let arg: String = a.to_owned();
            owned.push(arg);
            assert(owned.deep_view() =~= args.deep_view().take(i + 1));
        }
        assert(args.deep_view().take(args.len() as int) =~= args.deep_view());
        CommandSpec { program: program.to_owned(), args: owned }
    }
}

impl CommandLine {
    /// Convenience constructor for a single-program command line.
    pub fn program(program: &str, args: &[&str]) -> (cmd: Self)
        ensures
            cmd matches CommandLine::Program(spec) && spec.program@ == program@
                && spec.args.deep_view() == args.deep_view(),
    {
        CommandLine::Program(CommandSpec::new(program, args))
    }

    /// Renders the command portion (before any redirection): a quoted program
    /// and arguments, or the raw script text.
    fn render(&self) -> (r: String)
        ensures
            r@ == rendered(*self),
    {
        match self {
            CommandLine::Program(spec) => {
                let mut out = quote_if_needed(spec.program.as_str());
                let ghost args = spec.args.deep_view();
                for i in 0..spec.args.len()
                    invariant
                        args == spec.args.deep_view(),
                        out@ == quoted(spec.program@) + rendered_args(args.take(i as int)),
                {
                    out.push(' ');
                    let q = quote_if_needed(spec.args[i].as_str());
                    out.append(q.as_str());
                    assert(args.take(i + 1).drop_last() =~= args.take(i as int));
                    assert(out@ =~= quoted(spec.program@) + rendered_args(args.take(i + 1)));
                }
                assert(args.take(args.len() as int) =~= args);
                out
            },
            CommandLine::Script(raw) => raw.clone(),
        }
    }
}

/// Quotes a token only when it needs it (it is empty or contains whitespace).
fn quote_if_needed(token: &str) -> (r: String)
    ensures
        r@ == quoted(token@),
{
    if token.is_empty() || contains_whitespace(token) {
        let mut r = String::new();
        r.push('"');
        r.append(token);
        r.push('"');
        assert(r@ =~= seq!['"'] + token@ + seq!['"']);
        r
    } else {
        token.to_owned()
    }
}

/// Builds the `lpParameters` string for launching `command` through `cmd.exe`,
/// redirecting both stdout and stderr to `output_path`:
/// `/d /c "(<command>) > "<output_path>" 2>&1"`. The output path is always
/// quoted; program and arguments only where they hold whitespace or are empty.
pub fn elevated_cmd_parameters(command: &CommandLine, output_path: &str) -> (params: String)
    ensures
        params@ == elevated_parameters(*command, output_path@),
{
    let mut params = String::from_str("/d /c \"(");
    let rendered = command.render();
    params.append(rendered.as_str());
    params.append(") > \"");
    params.append(output_path);
    params.append("\" 2>&1\"");
    params
}

/// What `String::from_utf8_lossy` returns for `bytes`.
pub uninterp spec fn utf8_lossy(bytes: Seq<u8>) -> Seq<char>;

/// Whether `unit` is a leading (high) surrogate.
pub open spec fn is_high_surrogate(unit: u16) -> bool {
    0xD800 <= unit <= 0xDBFF
}

/// Whether `unit` is a trailing (low) surrogate.
pub open spec fn is_low_surrogate(unit: u16) -> bool {
    0xDC00 <= unit <= 0xDFFF
}

/// The code point a high and a low surrogate encode together.
pub open spec fn surrogate_pair_value(high: u16, low: u16) -> u32 {
    (0x10000 + (high - 0xD800) * 0x400 + (low - 0xDC00)) as u32
}

/// UTF-16 decoded with each error replaced by U+FFFD (what
/// `String::from_utf16_lossy` returns): a unit outside the surrogate range is
/// its own character, a high surrogate followed by a low one is the pair's
/// character, and any other surrogate is an error on its own.
pub open spec fn utf16_lossy(units: Seq<u16>) -> Seq<char>
    decreases units.len(),
{
    if units.len() == 0 {
        Seq::empty()
    } else if !(0xD800 <= units[0] <= 0xDFFF) {
        seq![(units[0] as u32) as char] + utf16_lossy(units.drop_first())
    } else if is_high_surrogate(units[0]) && units.len() >= 2 && is_low_surrogate(units[1]) {
        seq![surrogate_pair_value(units[0], units[1]) as char] + utf16_lossy(units.skip(2))
    } else {
        seq!['\u{FFFD}'] + utf16_lossy(units.drop_first())
    }
}

/// Decodes `bytes` as UTF-8 with `String::from_utf8_lossy`; the result is the
/// named value `utf8_lossy(bytes)` and, for valid UTF-8, the decoded text.
/// What it returns for invalid input (where replacement characters go) is not
/// stated.
#[verifier::external_body]
fn lossy_utf8(bytes: &[u8]) -> (text: String)
    ensures
        text@ == utf8_lossy(bytes@),
        vstd::utf8::valid_utf8(bytes@) ==> text@ == vstd::utf8::decode_utf8(bytes@),
{
    String::from_utf8_lossy(bytes).into_owned()
}

/// Decodes `units` as UTF-16 with `String::from_utf16_lossy`, which decodes
/// with `char::decode_utf16` and replaces each error by U+FFFD, as
/// `utf16_lossy` states.
#[verifier::external_body]
fn lossy_utf16(units: &[u16]) -> (text: String)
    ensures
        text@ == utf16_lossy(units@),
{
    String::from_utf16_lossy(units)
}

/// The little-endian 16-bit units of `bytes`, taken in pairs; a trailing odd
/// byte is ignored.
pub open spec fn le_units(bytes: Seq<u8>) -> Seq<u16> {
    Seq::new(bytes.len() / 2, |i: int| (bytes[2 * i] + 256 * bytes[2 * i + 1]) as u16)
}

/// The number of pairs among the first `k` of `sample` whose second byte is NUL.
pub open spec fn odd_nuls(sample: Seq<u8>, k: nat) -> nat
    decreases k,
{
    if k == 0 {
        0
    } else {
        odd_nuls(sample, (k - 1) as nat) + if sample[2 * (k - 1) + 1] == 0 { 1nat } else { 0nat }
    }
}

/// The leading bytes the UTF-16LE heuristic samples: at most 64.
pub open spec fn sample_of(bytes: Seq<u8>) -> Seq<u8> {
    if bytes.len() < 64 { bytes } else { bytes.take(64) }
}

/// The heuristic for BOM-less UTF-16LE: in a sample of at least four bytes, at
/// least half of the odd-position bytes are NUL.
pub open spec fn looks_like_utf16le(bytes: Seq<u8>) -> bool {
    let sample = sample_of(bytes);
    let odd_total = sample.len() / 2;
    &&& sample.len() >= 4
    &&& odd_total > 0
    &&& odd_nuls(sample, odd_total) * 2 >= odd_total
}

/// Whether `bytes` starts with the UTF-16LE byte-order mark.
pub open spec fn has_utf16le_bom(bytes: Seq<u8>) -> bool {
    bytes.len() >= 2 && bytes[0] == 0xFF && bytes[1] == 0xFE
}

/// Whether `bytes` starts with the UTF-8 byte-order mark.
pub open spec fn has_utf8_bom(bytes: Seq<u8>) -> bool {
    bytes.len() >= 3 && bytes[0] == 0xEF && bytes[1] == 0xBB && bytes[2] == 0xBF
}

/// Whether captured bytes are taken as UTF-8 without a byte-order mark: they
/// start with neither mark and do not look like UTF-16LE.
pub open spec fn decodes_as_plain_utf8(bytes: Seq<u8>) -> bool {
    !has_utf16le_bom(bytes) && !has_utf8_bom(bytes) && !looks_like_utf16le(bytes)
}

/// The text decoded from captured console bytes: UTF-16LE after its BOM, UTF-8
/// after its BOM, UTF-16LE where the NUL heuristic says so, else UTF-8.
pub open spec fn decoded_console_text(bytes: Seq<u8>) -> Seq<char> {
    if has_utf16le_bom(bytes) {
        utf16_lossy(le_units(bytes.skip(2)))
    } else if has_utf8_bom(bytes) {
        utf8_lossy(bytes.skip(3))
    } else if looks_like_utf16le(bytes) {
        utf16_lossy(le_units(bytes))
    } else {
        utf8_lossy(bytes)
    }
}

/// Decodes bytes captured from a redirected console into a `String`.
///
/// A UTF-16LE or UTF-8 byte-order mark selects the encoding and is dropped;
/// without one, BOM-less UTF-16LE is recognised by its NUL bytes, and anything
/// else is decoded as UTF-8, lossily.
pub fn decode_console_output(bytes: &[u8]) -> (text: String)
    ensures
        text@ == decoded_console_text(bytes@),
        decodes_as_plain_utf8(bytes@) && vstd::utf8::valid_utf8(bytes@) ==> text@
            == vstd::utf8::decode_utf8(bytes@),
        has_utf8_bom(bytes@) && vstd::utf8::valid_utf8(bytes@.skip(3)) ==> text@
            == vstd::utf8::decode_utf8(bytes@.skip(3)),
{
    let n = bytes.len();
    if n >= 2 && bytes[0] == 0xFF && bytes[1] == 0xFE {
        let rest = vstd::slice::slice_subrange(bytes, 2, n);
        assert(rest@ =~= bytes@.skip(2));
        return decode_utf16le(rest);
    }
    if n >= 3 && bytes[0] == 0xEF && bytes[1] == 0xBB && bytes[2] == 0xBF {
        let rest = vstd::slice::slice_subrange(bytes, 3, n);
        assert(rest@ =~= bytes@.skip(3));
        return lossy_utf8(rest);
    }
    if sniff_utf16le(bytes) {
        return decode_utf16le(bytes);
    }
    lossy_utf8(bytes)
}

/// The little-endian 16-bit units of `bytes`.
fn utf16le_units(bytes: &[u8]) -> (units: Vec<u16>)
    ensures
        units@ == le_units(bytes@),
{
    let count = bytes.len() / 2;
    let mut units: Vec<u16> = Vec::new();
    for i in 0..count
        invariant
            count == bytes@.len() / 2,
            count == bytes.len() / 2,
            units@ == le_units(bytes@).take(i as int),
    {
        assert(2 * i + 1 < bytes@.len());
        let unit: u16 = bytes[2 * i] as u16 + 256 * (bytes[2 * i + 1] as u16);
        units.push(unit);
        assert(units@ =~= le_units(bytes@).take(i + 1));
    }
    assert(le_units(bytes@).take(count as int) =~= le_units(bytes@));
    units
}

/// Decodes `bytes` as UTF-16LE, lossily.
fn decode_utf16le(bytes: &[u8]) -> (text: String)
    ensures
        text@ == utf16_lossy(le_units(bytes@)),
{
    let units = utf16le_units(bytes);
    lossy_utf16(units.as_slice())
}

/// Heuristic for BOM-less UTF-16LE: ASCII text encoded as UTF-16LE has a NUL
/// as every second byte, so the leading bytes are sampled for that pattern.
fn sniff_utf16le(bytes: &[u8]) -> (b: bool)
    ensures
        b == looks_like_utf16le(bytes@),
{
    let n: usize = if bytes.len() < 64 { bytes.len() } else { 64 };
    let ghost sample = sample_of(bytes@);
    assert(sample.len() == n);
    if n < 4 {
        return false;
    }
    let odd_total: usize = n / 2;
    let mut nuls: usize = 0;
    let mut j: usize = 0;
    while j < odd_total
        invariant
            j <= odd_total,
            odd_total == n / 2,
            n <= bytes@.len(),
            n <= 64,
            sample == sample_of(bytes@),
            sample.len() == n,
            nuls == odd_nuls(sample, j as nat),
            nuls <= j,
        decreases odd_total - j,
    {
        assert(sample[2 * j + 1] == bytes@[2 * j + 1]);
        if bytes[2 * j + 1] == 0 {
            nuls += 1;
        }
        j += 1;
    }
    odd_total > 0 && nuls * 2 >= odd_total
}

/// `s` cut at every occurrence of `sep`, as `str::split` cuts it: one more
/// piece than there are separators, and an empty piece on either side of a
/// separator at an end.
pub open spec fn split_on(s: Seq<char>, sep: char) -> Seq<Seq<char>>
    decreases s.len(),
{
    if s.len() == 0 {
        seq![Seq::empty()]
    } else {
        let rest = split_on(s.drop_last(), sep);
        if s.last() == sep {
            rest.push(Seq::empty())
        } else {
            rest.update(rest.len() - 1, rest.last().push(s.last()))
        }
    }
}

/// `line` without one trailing carriage return (the CR of a CRLF ending).
pub open spec fn strip_cr(line: Seq<char>) -> Seq<char> {
    if line.len() > 0 && line.last() == '\r' {
        line.drop_last()
    } else {
        line
    }
}

/// One captured line as displayed: the CR of a CRLF ending dropped, then only
/// the text after the last remaining carriage return (the latest progress
/// redraw), without trailing whitespace.
pub open spec fn console_line(line: Seq<char>) -> Seq<char> {
    trim_end(split_on(strip_cr(line), '\r').last())
}

/// The display lines of decoded console text: one per `\n`-separated piece.
pub open spec fn console_text_lines_of(text: Seq<char>) -> Seq<Seq<char>> {
    split_on(text, '\n').map_values(|line: Seq<char>| console_line(line))
}

/// `split_on` always yields at least one piece.
pub proof fn lemma_split_on_nonempty(s: Seq<char>, sep: char)
    ensures
        split_on(s, sep).len() >= 1,
    decreases s.len(),
{
    if s.len() > 0 {
        lemma_split_on_nonempty(s.drop_last(), sep);
    }
}

/// The last piece of `split_on(s, sep)` is the text after the last separator.
proof fn lemma_split_on_last(s: Seq<char>, sep: char, k: int)
    requires
        0 <= k <= s.len(),
        k == 0 || s[k - 1] == sep,
        forall|j: int| k <= j < s.len() ==> s[j] != sep,
    ensures
        split_on(s, sep).last() == s.subrange(k, s.len() as int),
    decreases s.len(),
{
    if s.len() > 0 {
        lemma_split_on_nonempty(s.drop_last(), sep);
        if k < s.len() {
            lemma_split_on_last(s.drop_last(), sep, k);
            assert(s.drop_last().subrange(k, s.len() - 1).push(s.last()) =~= s.subrange(
                k,
                s.len() as int,
            ));
        } else {
            assert(s.subrange(k, s.len() as int) =~= Seq::<char>::empty());
        }
    }
}

/// The display form of the captured line `cs[start..end]`.
fn clean_line(cs: &Vec<char>, start: usize, end: usize) -> (line: String)
    requires
        start <= end <= cs@.len(),
    ensures
        line@ == console_line(cs@.subrange(start as int, end as int)),
{
    let ghost whole = cs@.subrange(start as int, end as int);
    let mut e = end;
    if e > start && cs[e - 1] == '\r' {
        e = e - 1;
    }
    let ghost stripped = cs@.subrange(start as int, e as int);
    assert(strip_cr(whole) =~= stripped);
    let mut k = e;
    while k > start && cs[k - 1] != '\r'
        invariant
            start <= k <= e <= end <= cs@.len(),
            forall|j: int| k <= j < e ==> cs@[j] != '\r',
        decreases k,
    {
        k = k - 1;
    }
    proof {
        lemma_split_on_last(stripped, '\r', k - start);
        assert(stripped.subrange(k - start, stripped.len() as int) =~= cs@.subrange(
            k as int,
            e as int,
        ));
    }
    let mut t = e;
    while t > k && is_whitespace(cs[t - 1])
        invariant
            start <= k <= t <= e <= cs@.len(),
            trim_end(cs@.subrange(k as int, e as int)) == trim_end(
                cs@.subrange(k as int, t as int),
            ),
        decreases t,
    {
        assert(cs@.subrange(k as int, t as int).drop_last() =~= cs@.subrange(
            k as int,
            t - 1,
        ));
        t = t - 1;
    }
    string_of(cs.as_slice(), k, t)
}

/// Appending the display form of a piece's last line keeps the shown lines in
/// step with the pieces.
proof fn lemma_push_lines(
    prev: Seq<Seq<char>>,
    now: Seq<Seq<char>>,
    line: Seq<char>,
    done: Seq<Seq<char>>,
    piece: Seq<char>,
)
    requires
        prev == done.map_values(|l: Seq<char>| console_line(l)),
        now == prev.push(line),
        line == console_line(piece),
    ensures
        now == done.push(piece).map_values(|l: Seq<char>| console_line(l)),
{
    assert(now =~= done.push(piece).map_values(|l: Seq<char>| console_line(l)));
}

/// Splits decoded console text into display lines: one per `\n`-separated
/// piece, each cleaned as `console_line` says.
pub fn console_text_lines(text: &str) -> (lines: Vec<String>)
    ensures
        lines.deep_view() == console_text_lines_of(text@),
{
    let cs = chars_of(text);
    let mut out: Vec<String> = Vec::new();
    let ghost mut done: Seq<Seq<char>> = Seq::empty();
    let mut start: usize = 0;
    let mut i: usize = 0;
    assert(cs@.take(0) =~= Seq::<char>::empty());
    assert(cs@.subrange(0, 0) =~= Seq::<char>::empty());
    assert(out.deep_view() =~= done.map_values(|line: Seq<char>| console_line(line)));
    while i < cs.len()
        invariant
            cs@ == text@,
            start <= i <= cs@.len(),
            split_on(cs@.take(i as int), '\n') == done.push(cs@.subrange(start as int, i as int)),
            out@.len() == done.len(),
            out.deep_view() == done.map_values(|line: Seq<char>| console_line(line)),
        decreases cs.len() - i,
    {
        assert(cs@.take(i + 1).drop_last() =~= cs@.take(i as int));
        if cs[i] == '\n' {
            let line = clean_line(&cs, start, i);
            let ghost prev = out.deep_view();
            out.push(line);
            proof {
                assert(out.deep_view() =~= prev.push(line@));
                lemma_push_lines(prev, out.deep_view(), line@, done, cs@.subrange(start as int, i as int));
                done = done.push(cs@.subrange(start as int, i as int));
            }
            start = i + 1;
            i = i + 1;
            assert(cs@.subrange(start as int, i as int) =~= Seq::<char>::empty());
        } else {
            i = i + 1;
            assert(cs@.subrange(start as int, i as int) =~= cs@.subrange(start as int, i - 1).push(
                cs@[i - 1],
            ));
        }
    }
    let line = clean_line(&cs, start, cs.len());
    let ghost prev = out.deep_view();
    out.push(line);
    proof {
        assert(out.deep_view() =~= prev.push(line@));
        lemma_push_lines(prev, out.deep_view(), line@, done, cs@.subrange(start as int, cs@.len() as int));
        done = done.push(cs@.subrange(start as int, cs@.len() as int));
        assert(cs@.take(cs@.len() as int) =~= cs@);
    }
    out
}

/// Decodes captured console bytes into display lines, collapsing
/// carriage-return progress overwrites: each line keeps only the text after
/// its final `\r` (a CRLF ending does not count), without trailing whitespace.
pub fn console_lines(bytes: &[u8]) -> (lines: Vec<String>)
    ensures
        lines.deep_view() == console_text_lines_of(decoded_console_text(bytes@)),
        decodes_as_plain_utf8(bytes@) && vstd::utf8::valid_utf8(bytes@) ==> lines.deep_view()
            == console_text_lines_of(vstd::utf8::decode_utf8(bytes@)),
        has_utf8_bom(bytes@) && vstd::utf8::valid_utf8(bytes@.skip(3)) ==> lines.deep_view()
            == console_text_lines_of(vstd::utf8::decode_utf8(bytes@.skip(3))),
{
    let text = decode_console_output(bytes);
    console_text_lines(text.as_str())
}

/// One step of compaction: a blank line (all whitespace) becomes a single
/// empty line unless the output is empty or already ends with an empty line;
/// any other line is kept as it is.
pub open spec fn compact_step(out: Seq<Seq<char>>, line: Seq<char>) -> Seq<Seq<char>> {
    if all_ws(line) {
        if out.len() == 0 || out.last().len() == 0 {
            out
        } else {
            out.push(Seq::empty())
        }
    } else {
        out.push(line)
    }
}

/// The compaction steps applied to `lines` in order.
pub open spec fn compact_fold(lines: Seq<Seq<char>>) -> Seq<Seq<char>>
    decreases lines.len(),
{
    if lines.len() == 0 {
        Seq::empty()
    } else {
        compact_step(compact_fold(lines.drop_last()), lines.last())
    }
}

/// `out` without its trailing empty lines.
pub open spec fn drop_trailing_empty(out: Seq<Seq<char>>) -> Seq<Seq<char>>
    decreases out.len(),
{
    if out.len() > 0 && out.last().len() == 0 {
        drop_trailing_empty(out.drop_last())
    } else {
        out
    }
}

/// Lines tidied for display: leading blank lines dropped, each run of blank
/// lines collapsed to one empty line, trailing blank lines dropped.
pub open spec fn compacted(lines: Seq<Seq<char>>) -> Seq<Seq<char>> {
    drop_trailing_empty(compact_fold(lines))
}

/// Tidies decoded output lines for display: drops leading blank lines,
/// collapses runs of blank lines to a single blank, and trims trailing blanks.
pub fn compact_lines(lines: &[String]) -> (out: Vec<String>)
    ensures
        out.deep_view() == compacted(lines.deep_view()),
{
    let ghost input = lines.deep_view();
    let mut out: Vec<String> = Vec::with_capacity(lines.len());
    assert(out.deep_view() =~= compact_fold(input.take(0)));
    for i in 0..lines.len()
        invariant
            input == lines.deep_view(),
            out.deep_view() == compact_fold(input.take(i as int)),
    {
        let ghost prev = out.deep_view();
        assert(input.take(i + 1).drop_last() =~= input.take(i as int));
        assert(input.take(i + 1).last() == lines@[i as int]@);
        let line = &lines[i];
        if is_blank(line.as_str()) {
            if out.len() == 0 || out[out.len() - 1].as_str().is_empty() {
            } else {
                out.push(String::new());
                assert(out.deep_view() =~= prev.push(Seq::empty()));
            }
        } else {
            out.push(line.clone());
            assert(out.deep_view() =~= prev.push(line@));
        }
    }
    assert(input.take(lines@.len() as int) =~= input);
    while out.len() > 0 && out[out.len() - 1].as_str().is_empty()
        invariant
            drop_trailing_empty(out.deep_view()) == compacted(input),
        decreases out.len(),
    {
        let ghost prev = out.deep_view();
        out.pop();
        assert(out.deep_view() =~= prev.drop_last());
    }
    out
}

/// The lines that are not blank, in order.
pub open spec fn non_blank(lines: Seq<Seq<char>>) -> Seq<Seq<char>>
    decreases lines.len(),
{
    if lines.len() == 0 {
        Seq::empty()
    } else if all_ws(lines.last()) {
        non_blank(lines.drop_last())
    } else {
        non_blank(lines.drop_last()).push(lines.last())
    }
}

/// The shape of compacted output: every line is either empty or not blank, no
/// two empty lines are adjacent, and the first and last lines are not empty.
pub open spec fn is_compact(out: Seq<Seq<char>>) -> bool {
    &&& forall|i: int| 0 <= i < out.len() ==> (#[trigger] out[i]).len() == 0 || !all_ws(out[i])
    &&& forall|i: int| 0 <= i < out.len() - 1 ==> (#[trigger] out[i]).len() > 0 || out[i + 1].len() > 0
    &&& out.len() > 0 ==> out[0].len() > 0 && out.last().len() > 0
}

/// The shape that compaction keeps while it runs (trailing empty allowed).
spec fn is_fold_shape(out: Seq<Seq<char>>) -> bool {
    &&& forall|i: int| 0 <= i < out.len() ==> (#[trigger] out[i]).len() == 0 || !all_ws(out[i])
    &&& forall|i: int| 0 <= i < out.len() - 1 ==> (#[trigger] out[i]).len() > 0 || out[i + 1].len() > 0
    &&& out.len() > 0 ==> out[0].len() > 0
}

proof fn lemma_fold_shape(lines: Seq<Seq<char>>)
    ensures
        is_fold_shape(compact_fold(lines)),
        non_blank(compact_fold(lines)) == non_blank(lines),
    decreases lines.len(),
{
    if lines.len() > 0 {
        let prev = compact_fold(lines.drop_last());
        lemma_fold_shape(lines.drop_last());
        let l = lines.last();
        let now = compact_fold(lines);
        if all_ws(l) {
            if !(prev.len() == 0 || prev.last().len() == 0) {
                assert(now == prev.push(Seq::empty()));
                assert(all_ws(now.last()));
                assert(now.drop_last() =~= prev);
            }
        } else {
            assert(now == prev.push(l));
            assert(now.drop_last() =~= prev);
        }
    }
}

proof fn lemma_drop_trailing_shape(out: Seq<Seq<char>>)
    requires
        is_fold_shape(out),
    ensures
        is_compact(drop_trailing_empty(out)),
        non_blank(drop_trailing_empty(out)) == non_blank(out),
    decreases out.len(),
{
    if out.len() > 0 && out.last().len() == 0 {
        assert(all_ws(out.last()));
        let shorter = out.drop_last();
        assert(is_fold_shape(shorter)) by {
            assert forall|i: int| 0 <= i < shorter.len() - 1 implies (#[trigger] shorter[i]).len() > 0
                || shorter[i + 1].len() > 0 by {
                assert(shorter[i] == out[i] && shorter[i + 1] == out[i + 1]);
            }
        }
        lemma_drop_trailing_shape(shorter);
    }
}

/// A compact sequence of lines is left unchanged by the compaction steps.
proof fn lemma_fold_of_fold_shape(out: Seq<Seq<char>>)
    requires
        is_fold_shape(out),
    ensures
        compact_fold(out) == out,
    decreases out.len(),
{
    if out.len() > 0 {
        let shorter = out.drop_last();
        assert(is_fold_shape(shorter)) by {
            assert forall|i: int| 0 <= i < shorter.len() - 1 implies (#[trigger] shorter[i]).len() > 0
                || shorter[i + 1].len() > 0 by {
                assert(shorter[i] == out[i] && shorter[i + 1] == out[i + 1]);
            }
        }
        lemma_fold_of_fold_shape(shorter);
        let l = out.last();
        if all_ws(l) {
            assert(l.len() == 0);
            assert(out.len() >= 2);
            assert(out[out.len() - 2].len() > 0);
            assert(l =~= Seq::<char>::empty());
            assert(out =~= shorter.push(Seq::empty()));
        } else {
            assert(out =~= shorter.push(l));
        }
    }
}

/// Compacted output has the compact shape, keeps every non-blank line in
/// order, and compacting it again changes nothing.
pub proof fn lemma_compact_lines_laws(lines: Seq<Seq<char>>)
    ensures
        is_compact(compacted(lines)),
        non_blank(compacted(lines)) == non_blank(lines),
        compacted(compacted(lines)) == compacted(lines),
{
    lemma_fold_shape(lines);
    lemma_drop_trailing_shape(compact_fold(lines));
    let c = compacted(lines);
    lemma_fold_of_fold_shape(c);
    assert(drop_trailing_empty(c) == c);
}

/// The number of occurrences of `c` in `s`.
pub open spec fn count_char(s: Seq<char>, c: char) -> nat
    decreases s.len(),
{
    if s.len() == 0 {
        0
    } else {
        count_char(s.drop_last(), c) + if s.last() == c { 1nat } else { 0nat }
    }
}

/// `split_on` yields one more piece than there are separators; no piece holds
/// the separator, nor any character `c` that `s` lacks.
proof fn lemma_split_on_pieces(s: Seq<char>, sep: char, c: char)
    ensures
        split_on(s, sep).len() == count_char(s, sep) + 1,
        forall|i: int, j: int|
            0 <= i < split_on(s, sep).len() && 0 <= j < split_on(s, sep)[i].len() ==> {
                &&& #[trigger] split_on(s, sep)[i][j] != sep
                &&& (forall|k: int| 0 <= k < s.len() ==> s[k] != c) ==> split_on(s, sep)[i][j] != c
            },
    decreases s.len(),
{
    if s.len() > 0 {
        lemma_split_on_pieces(s.drop_last(), sep, c);
        lemma_split_on_nonempty(s.drop_last(), sep);
        let rest = split_on(s.drop_last(), sep);
        if (forall|k: int| 0 <= k < s.len() ==> s[k] != c) {
            assert forall|k: int| 0 <= k < s.drop_last().len() implies s.drop_last()[k] != c by {
                assert(s.drop_last()[k] == s[k]);
            }
        }
        if s.last() != sep {
            let now = split_on(s, sep);
            assert forall|i: int, j: int| 0 <= i < now.len() && 0 <= j < now[i].len() implies {
                &&& #[trigger] now[i][j] != sep
                &&& (forall|k: int| 0 <= k < s.len() ==> s[k] != c) ==> now[i][j] != c
            } by {
                if i == now.len() - 1 && j == now[i].len() - 1 {
                    assert(now[i][j] == s.last());
                    assert(s.last() == s[s.len() - 1]);
                } else if i == now.len() - 1 {
                    assert(now[i][j] == rest[i][j]);
                } else {
                    assert(now[i] == rest[i]);
                }
            }
        } else {
            let now = split_on(s, sep);
            assert forall|i: int, j: int| 0 <= i < now.len() && 0 <= j < now[i].len() implies {
                &&& #[trigger] now[i][j] != sep
                &&& (forall|k: int| 0 <= k < s.len() ==> s[k] != c) ==> now[i][j] != c
            } by {
                assert(now[i] == rest[i]);
            }
        }
    }
}

/// Trimming the end keeps a prefix of `s` that does not end with whitespace,
/// and drops only whitespace.
pub proof fn lemma_trim_end(s: Seq<char>)
    ensures
        trim_end(s).len() <= s.len(),
        forall|j: int| 0 <= j < trim_end(s).len() ==> #[trigger] trim_end(s)[j] == s[j],
        trim_end(s).len() > 0 ==> !is_ws(trim_end(s).last()),
        forall|j: int| trim_end(s).len() <= j < s.len() ==> is_ws(#[trigger] s[j]),
    decreases s.len(),
{
    if s.len() > 0 && is_ws(s.last()) {
        lemma_trim_end(s.drop_last());
        assert forall|j: int| trim_end(s).len() <= j < s.len() implies is_ws(#[trigger] s[j]) by {
            if j < s.len() - 1 {
                assert(s[j] == s.drop_last()[j]);
            }
        }
    }
}

/// A text without the separator is a single piece.
proof fn lemma_split_on_none(s: Seq<char>, sep: char)
    requires
        forall|j: int| 0 <= j < s.len() ==> s[j] != sep,
    ensures
        split_on(s, sep) == seq![s],
    decreases s.len(),
{
    if s.len() > 0 {
        lemma_split_on_none(s.drop_last(), sep);
        assert(s.last() == s[s.len() - 1]);
        assert(s.drop_last().push(s.last()) =~= s);
        assert(split_on(s, sep) =~= seq![s]);
    } else {
        assert(s =~= Seq::<char>::empty());
    }
}

/// A captured line shows only its latest redraw, whatever its length: the
/// text after its last carriage return, without trailing whitespace. A CRLF
/// ending does not count as a redraw, and a line without carriage returns is
/// shown as it is, without trailing whitespace.
pub proof fn lemma_console_line_keeps_latest_redraw(earlier: Seq<char>, latest: Seq<char>)
    requires
        forall|j: int| 0 <= j < latest.len() ==> latest[j] != '\r',
    ensures
        latest.len() > 0 ==> console_line(earlier + seq!['\r'] + latest) == trim_end(latest),
        console_line(earlier + seq!['\r'] + latest + seq!['\r']) == trim_end(latest),
        console_line(latest) == trim_end(latest),
        console_line(latest + seq!['\r']) == trim_end(latest),
{
    let k: int = earlier.len() as int + 1;
    let a = earlier + seq!['\r'] + latest;
    assert(a[k - 1] == '\r');
    assert(a.subrange(k, a.len() as int) =~= latest);
    assert forall|j: int| k <= j < a.len() implies a[j] != '\r' by {
        assert(a[j] == latest[j - k]);
    }
    lemma_split_on_last(a, '\r', k);
    if latest.len() > 0 {
        assert(a.last() == latest.last());
        assert(strip_cr(a) == a);
    }
    let b = a + seq!['\r'];
    assert(b.drop_last() =~= a);
    assert(strip_cr(b) == a);
    assert(latest.subrange(0, latest.len() as int) =~= latest);
    lemma_split_on_last(latest, '\r', 0);
    if latest.len() > 0 {
        assert(latest.last() == latest[latest.len() - 1]);
    }
    assert(strip_cr(latest) == latest);
    let c = latest + seq!['\r'];
    assert(c.drop_last() =~= latest);
    assert(strip_cr(c) == latest);
}

/// Console text whose single line is redrawn with carriage returns and ends
/// with CRLF shows the latest redraw, then the empty piece after the line
/// break, however long the line is.
pub proof fn lemma_console_text_shows_latest_redraw(earlier: Seq<char>, latest: Seq<char>)
    requires
        forall|j: int| 0 <= j < earlier.len() ==> earlier[j] != '\n',
        forall|j: int| 0 <= j < latest.len() ==> latest[j] != '\r' && latest[j] != '\n',
    ensures
        console_text_lines_of(earlier + seq!['\r'] + latest + seq!['\r', '\n'])
            == seq![trim_end(latest), Seq::<char>::empty()],
{
    let line = earlier + seq!['\r'] + latest + seq!['\r'];
    let text = earlier + seq!['\r'] + latest + seq!['\r', '\n'];
    assert forall|j: int| 0 <= j < line.len() implies line[j] != '\n' by {
        if j < earlier.len() {
            assert(line[j] == earlier[j]);
        } else if earlier.len() < j < earlier.len() + 1 + latest.len() {
            assert(line[j] == latest[j - earlier.len() - 1]);
        }
    }
    lemma_split_on_none(line, '\n');
    assert(text.drop_last() =~= line);
    assert(split_on(text, '\n') == seq![line].push(Seq::<char>::empty()));
    lemma_console_line_keeps_latest_redraw(earlier, latest);
    assert(console_line(Seq::<char>::empty()) == Seq::<char>::empty());
    assert(console_text_lines_of(text) =~= seq![trim_end(latest), Seq::<char>::empty()]);
}

/// Each display line of console text is free of line breaks and carriage
/// returns and does not end with whitespace, and there is one line per
/// `\n`-separated piece of the text.
pub proof fn lemma_console_lines_laws(text: Seq<char>)
    ensures
        console_text_lines_of(text).len() == count_char(text, '\n') + 1,
        forall|i: int, j: int|
            0 <= i < console_text_lines_of(text).len() && 0 <= j
                < console_text_lines_of(text)[i].len() ==> {
                &&& #[trigger] console_text_lines_of(text)[i][j] != '\n'
                &&& console_text_lines_of(text)[i][j] != '\r'
            },
        forall|i: int|
            0 <= i < console_text_lines_of(text).len() && (#[trigger] console_text_lines_of(
                text,
            )[i]).len() > 0 ==> !is_ws(console_text_lines_of(text)[i].last()),
{
    let pieces = split_on(text, '\n');
    lemma_split_on_pieces(text, '\n', '\n');
    let lines = console_text_lines_of(text);
    assert forall|i: int| 0 <= i < lines.len() implies {
        &&& forall|j: int| 0 <= j < lines[i].len() ==> #[trigger] lines[i][j] != '\n' && lines[i][j] != '\r'
        &&& lines[i].len() > 0 ==> !is_ws(lines[i].last())
    } by {
        let piece = pieces[i];
        let stripped = strip_cr(piece);
        assert forall|k: int| 0 <= k < stripped.len() implies stripped[k] != '\n' by {
            assert(stripped[k] == piece[k]);
        }
        lemma_split_on_pieces(stripped, '\r', '\n');
        lemma_split_on_nonempty(stripped, '\r');
        let last = split_on(stripped, '\r').last();
        assert(last == split_on(stripped, '\r')[split_on(stripped, '\r').len() - 1]);
        lemma_trim_end(last);
        assert(lines[i] == trim_end(last));
        assert forall|j: int| 0 <= j < lines[i].len() implies #[trigger] lines[i][j] != '\n'
            && lines[i][j] != '\r' by {
            assert(lines[i][j] == last[j]);
        }
    }
}

/// The UTF-16 code units of one character: itself below U+10000, else a high
/// and a low surrogate.
pub open spec fn utf16_units_of(c: char) -> Seq<u16> {
    let v = c as u32;
    if v < 0x10000 {
        seq![v as u16]
    } else {
        seq![(0xD800 + (v - 0x10000) / 0x400) as u16, (0xDC00 + (v - 0x10000) % 0x400) as u16]
    }
}

/// The UTF-16 encoding of `text` (what `str::encode_utf16` yields).
pub open spec fn utf16_of(text: Seq<char>) -> Seq<u16>
    decreases text.len(),
{
    if text.len() == 0 {
        Seq::empty()
    } else {
        utf16_units_of(text[0]) + utf16_of(text.drop_first())
    }
}

/// The little-endian bytes of 16-bit units.
pub open spec fn le_bytes(units: Seq<u16>) -> Seq<u8> {
    Seq::new(
        2 * units.len(),
        |i: int|
            if i % 2 == 0 {
                (units[i / 2] % 256) as u8
            } else {
                (units[i / 2] / 256) as u8
            },
    )
}

/// Reading little-endian units back from their bytes gives the units.
proof fn lemma_le_units_of_le_bytes(units: Seq<u16>)
    ensures
        le_units(le_bytes(units)) == units,
{
    let bytes = le_bytes(units);
    assert forall|i: int| 0 <= i < units.len() implies #[trigger] le_units(bytes)[i] == units[i] by {
        assert(bytes[2 * i] == (units[i] % 256) as u8);
        assert(bytes[2 * i + 1] == (units[i] / 256) as u8);
    }
    assert(le_units(bytes) =~= units);
}

/// Decoding the units of one character followed by more units gives the
/// character followed by the decoding of the rest.
proof fn lemma_utf16_lossy_of_char(c: char, rest: Seq<u16>)
    ensures
        utf16_lossy(utf16_units_of(c) + rest) == seq![c] + utf16_lossy(rest),
{
    let v = c as u32;
    vstd::utf8::char_is_scalar(c);
    let units = utf16_units_of(c) + rest;
    if v < 0x10000 {
        assert(units[0] == v as u16);
        assert((units[0] as u32) == v);
        vstd::utf8::char_u32_cast(c, v);
        assert(units.drop_first() =~= rest);
    } else {
        let high = units[0];
        let low = units[1];
        assert(high == (0xD800 + (v - 0x10000) / 0x400) as u16);
        assert(low == (0xDC00 + (v - 0x10000) % 0x400) as u16);
        assert(surrogate_pair_value(high, low) == v);
        vstd::utf8::char_u32_cast(c, v);
        assert(units.skip(2) =~= rest);
    }
}

/// Decoding the UTF-16 encoding of a text gives the text back.
proof fn lemma_utf16_lossy_of_utf16(text: Seq<char>)
    ensures
        utf16_lossy(utf16_of(text)) == text,
    decreases text.len(),
{
    if text.len() > 0 {
        lemma_utf16_lossy_of_utf16(text.drop_first());
        lemma_utf16_lossy_of_char(text[0], utf16_of(text.drop_first()));
        assert(seq![text[0]] + text.drop_first() =~= text);
    }
}

/// Whether every character of `text` is ASCII.
pub open spec fn is_ascii_text(text: Seq<char>) -> bool {
    forall|i: int| 0 <= i < text.len() ==> (#[trigger] text[i] as u32) < 0x80
}

/// The UTF-16 encoding of ASCII text is one unit per character.
proof fn lemma_utf16_of_ascii(text: Seq<char>)
    requires
        is_ascii_text(text),
    ensures
        utf16_of(text).len() == text.len(),
        forall|i: int| 0 <= i < text.len() ==> #[trigger] utf16_of(text)[i] == text[i] as u32,
    decreases text.len(),
{
    if text.len() > 0 {
        assert(is_ascii_text(text.drop_first())) by {
            assert forall|i: int| 0 <= i < text.drop_first().len() implies (
            #[trigger] text.drop_first()[i] as u32) < 0x80 by {
                assert(text.drop_first()[i] == text[i + 1]);
            }
        }
        lemma_utf16_of_ascii(text.drop_first());
        assert((text[0] as u32) < 0x80);
        assert forall|i: int| 0 <= i < text.len() implies #[trigger] utf16_of(text)[i] == text[i]
            as u32 by {
            if i > 0 {
                assert(utf16_of(text)[i] == utf16_of(text.drop_first())[i - 1]);
                assert(text.drop_first()[i - 1] == text[i]);
            }
        }
    }
}

/// In a sample whose odd-position bytes are all NUL, every pair counts.
proof fn lemma_odd_nuls_all(sample: Seq<u8>, k: nat)
    requires
        2 * k <= sample.len(),
        forall|j: int| 0 <= j < k ==> #[trigger] sample[2 * j + 1] == 0,
    ensures
        odd_nuls(sample, k) == k,
    decreases k,
{
    if k > 0 {
        lemma_odd_nuls_all(sample, (k - 1) as nat);
    }
}

/// In a sample without NUL bytes, no pair counts.
proof fn lemma_odd_nuls_none(sample: Seq<u8>, k: nat)
    requires
        2 * k <= sample.len(),
        forall|j: int| 0 <= j < sample.len() ==> #[trigger] sample[j] != 0,
    ensures
        odd_nuls(sample, k) == 0,
    decreases k,
{
    if k > 0 {
        lemma_odd_nuls_none(sample, (k - 1) as nat);
    }
}

/// A UTF-16LE text comes back from the console decoding: after a UTF-16LE
/// byte-order mark always, and without one when it is ASCII of at least two
/// characters (the NUL heuristic then recognises it).
pub proof fn lemma_utf16le_text_round_trip(text: Seq<char>)
    ensures
        decoded_console_text(seq![0xFFu8, 0xFEu8] + le_bytes(utf16_of(text))) == text,
        is_ascii_text(text) && text.len() >= 2 ==> decoded_console_text(le_bytes(utf16_of(text)))
            == text,
{
    let with_bom = seq![0xFFu8, 0xFEu8] + le_bytes(utf16_of(text));
    assert(with_bom.skip(2) =~= le_bytes(utf16_of(text)));
    lemma_le_units_of_le_bytes(utf16_of(text));
    lemma_utf16_lossy_of_utf16(text);
    if is_ascii_text(text) && text.len() >= 2 {
        lemma_utf16_of_ascii(text);
        let units = utf16_of(text);
        let bytes = le_bytes(units);
        assert(bytes[0] == (units[0] % 256) as u8);
        assert(units[0] < 0x80);
        assert(!has_utf16le_bom(bytes) && !has_utf8_bom(bytes));
        let sample = sample_of(bytes);
        let total = sample.len() / 2;
        assert forall|j: int| 0 <= j < total implies #[trigger] sample[2 * j + 1] == 0 by {
            assert(sample[2 * j + 1] == bytes[2 * j + 1]);
            assert(bytes[2 * j + 1] == (units[j] / 256) as u8);
            assert(units[j] < 0x80);
        }
        lemma_odd_nuls_all(sample, total as nat);
        assert(looks_like_utf16le(bytes));
    }
}

/// No byte of the UTF-8 encoding of a scalar other than U+0000 is NUL, and
/// its first byte is never 0xFF.
proof fn lemma_scalar_bytes(v: u32)
    requires
        vstd::utf8::is_scalar(v),
        v != 0,
    ensures
        forall|j: int|
            0 <= j < vstd::utf8::encode_scalar(v).len() ==> #[trigger] vstd::utf8::encode_scalar(
                v,
            )[j] != 0,
        vstd::utf8::encode_scalar(v)[0] != 0xFF,
{
    let lead1 = vstd::utf8::leading_byte_width_1(v);
    let lead2 = vstd::utf8::leading_byte_width_2(v);
    let lead3 = vstd::utf8::leading_byte_width_3(v);
    let lead4 = vstd::utf8::leading_byte_width_4(v);
    let last = vstd::utf8::last_continuation_byte(v);
    let second = vstd::utf8::second_last_continuation_byte(v);
    let third = vstd::utf8::third_last_continuation_byte(v);
    assert(0 < v <= 0x7F ==> lead1 != 0 && lead1 != 0xFF) by (bit_vector)
        requires
            lead1 == (v & 0x7F) as u8,
    ;
    assert(lead2 != 0 && lead2 != 0xFF) by (bit_vector)
        requires
            lead2 == 0xC0 | ((v >> 6) & 0x1F) as u8,
    ;
    assert(lead3 != 0 && lead3 != 0xFF) by (bit_vector)
        requires
            lead3 == 0xE0 | ((v >> 12) & 0x0F) as u8,
    ;
    assert(lead4 != 0 && lead4 != 0xFF) by (bit_vector)
        requires
            lead4 == 0xF0 | ((v >> 18) & 0x7) as u8,
    ;
    assert(last != 0 && second != 0 && third != 0) by (bit_vector)
        requires
            last == 0x80 | (v & 0x3F) as u8,
            second == 0x80 | ((v >> 6) & 0x3F) as u8,
            third == 0x80 | ((v >> 12) & 0x3F) as u8,
    ;
}

/// The UTF-8 encoding of a text without U+0000 holds no NUL byte.
proof fn lemma_encode_utf8_no_nul(text: Seq<char>)
    requires
        forall|i: int| 0 <= i < text.len() ==> #[trigger] text[i] != '\0',
    ensures
        forall|j: int|
            0 <= j < vstd::utf8::encode_utf8(text).len() ==> #[trigger] vstd::utf8::encode_utf8(
                text,
            )[j] != 0,
    decreases text.len(),
{
    if text.len() > 0 {
        let v = text[0] as u32;
        vstd::utf8::char_is_scalar(text[0]);
        if v == 0 {
            vstd::utf8::char_u32_cast(text[0], v);
            vstd::utf8::char_u32_cast('\0', '\0' as u32);
            assert(text[0] == '\0');
        }
        lemma_scalar_bytes(v);
        assert forall|i: int| 0 <= i < text.drop_first().len() implies #[trigger] text.drop_first()[i]
            != '\0' by {
            assert(text.drop_first()[i] == text[i + 1]);
        }
        lemma_encode_utf8_no_nul(text.drop_first());
        let head = vstd::utf8::encode_scalar(v);
        let tail = vstd::utf8::encode_utf8(text.drop_first());
        assert(vstd::utf8::encode_utf8(text) == head + tail);
        assert forall|j: int| 0 <= j < (head + tail).len() implies #[trigger] (head + tail)[j]
            != 0 by {
            if j < head.len() {
                assert((head + tail)[j] == head[j]);
            } else {
                assert((head + tail)[j] == tail[j - head.len()]);
            }
        }
    }
}

/// A text comes back from the console decoding of its UTF-8 bytes: after a
/// UTF-8 byte-order mark always (the mark is dropped), and without one when
/// the text holds no U+0000 and does not itself start with U+FEFF (so the
/// bytes show no mark and do not look like UTF-16LE). `decode_console_output`
/// gives `decode_utf8` of such bytes.
pub proof fn lemma_utf8_text_round_trip(text: Seq<char>)
    ensures
        vstd::utf8::valid_utf8(vstd::utf8::encode_utf8(text)),
        vstd::utf8::decode_utf8(vstd::utf8::encode_utf8(text)) == text,
        has_utf8_bom(seq![0xEFu8, 0xBBu8, 0xBFu8] + vstd::utf8::encode_utf8(text)),
        (seq![0xEFu8, 0xBBu8, 0xBFu8] + vstd::utf8::encode_utf8(text)).skip(3)
            == vstd::utf8::encode_utf8(text),
        (forall|i: int| 0 <= i < text.len() ==> #[trigger] text[i] != '\0') && (text.len() == 0
            || text[0] != '\u{FEFF}') ==> decodes_as_plain_utf8(vstd::utf8::encode_utf8(text)),
{
    let bytes = vstd::utf8::encode_utf8(text);
    vstd::utf8::encode_utf8_valid_utf8(text);
    vstd::utf8::encode_utf8_decode_utf8(text);
    assert((seq![0xEFu8, 0xBBu8, 0xBFu8] + bytes).skip(3) =~= bytes);
    if (forall|i: int| 0 <= i < text.len() ==> #[trigger] text[i] != '\0') && (text.len() == 0
        || text[0] != '\u{FEFF}') {
        lemma_encode_utf8_no_nul(text);
        if text.len() > 0 {
            let v = text[0] as u32;
            vstd::utf8::char_is_scalar(text[0]);
            if v == 0 {
                vstd::utf8::char_u32_cast(text[0], v);
                vstd::utf8::char_u32_cast('\0', '\0' as u32);
            }
            lemma_scalar_bytes(v);
            let head = vstd::utf8::encode_scalar(v);
            assert(bytes == head + vstd::utf8::encode_utf8(text.drop_first()));
            assert(bytes[0] == head[0]);
            if has_utf8_bom(bytes) {
                vstd::utf8::encode_utf8_first_scalar(text);
                assert(vstd::utf8::codepoint_width_3(0xEF, 0xBB, 0xBF) == 0xFEFF) by (bit_vector);
                assert(vstd::utf8::decode_first_scalar(bytes) == 0xFEFF);
                vstd::utf8::char_u32_cast(text[0], v);
                vstd::utf8::char_u32_cast('\u{FEFF}', '\u{FEFF}' as u32);
                assert(text[0] == '\u{FEFF}');
            }
        }
        let sample = sample_of(bytes);
        assert forall|j: int| 0 <= j < sample.len() implies #[trigger] sample[j] != 0 by {
            assert(sample[j] == bytes[j]);
        }
        lemma_odd_nuls_none(sample, sample.len() / 2);
    }
}

} // verus!
