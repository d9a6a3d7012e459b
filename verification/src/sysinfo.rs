//! Types and formatting for the read-only system overview: the report text, byte
//! counts in binary units, and uptimes.
use vstd::prelude::*;

use crate::text::{dec, digit, digit_char, push_decimal};

verus! {

broadcast use vstd::string::group_string_axioms;

/// A fixed disk volume and its capacity.
#[derive(Debug, Clone, PartialEq, Eq)]
pub struct DriveInfo {
    /// The drive root, e.g. `C:\`.
    pub name: String,
    /// Total capacity in bytes.
    pub total: u64,
    /// Free space in bytes.
    pub free: u64,
}

/// A read-only snapshot of the machine's operating system and hardware.
#[derive(Debug, Clone, PartialEq, Eq)]
pub struct SystemInfo {
    /// OS product name, e.g. "Windows 11 Pro".
    pub os_name: String,
    /// OS build string, e.g. "26100.1234".
    pub os_build: String,
    /// The machine (computer) name.
    pub computer_name: String,
    /// System manufacturer and model.
    pub system_model: String,
    /// Human-readable uptime, e.g. "3d 4h 12m".
    pub uptime: String,
    /// CPU model name.
    pub cpu: String,
    /// Number of logical processors.
    pub logical_cpus: usize,
    /// Installed display adapters (GPUs).
    pub gpus: Vec<String>,
    /// Total physical memory in bytes.
    pub total_memory: u64,
    /// Currently available physical memory in bytes.
    pub available_memory: u64,
    /// Fixed drives and their capacities.
    pub drives: Vec<DriveInfo>,
}

impl Default for SystemInfo {
    /// An empty snapshot: empty strings and lists, zero counts.
    fn default() -> (info: Self)
        ensures
            info.os_name@ == Seq::<char>::empty(),
            info.os_build@ == Seq::<char>::empty(),
            info.computer_name@ == Seq::<char>::empty(),
            info.system_model@ == Seq::<char>::empty(),
            info.uptime@ == Seq::<char>::empty(),
            info.cpu@ == Seq::<char>::empty(),
            info.logical_cpus == 0,
            info.gpus@.len() == 0,
            info.total_memory == 0,
            info.available_memory == 0,
            info.drives@.len() == 0,
    {
        SystemInfo {
            os_name: String::new(),
            os_build: String::new(),
            computer_name: String::new(),
            system_model: String::new(),
            uptime: String::new(),
            cpu: String::new(),
            logical_cpus: 0,
            gpus: Vec::new(),
            total_memory: 0,
            available_memory: 0,
            drives: Vec::new(),
        }
    }
}

/// `1024` raised to the power `k`.
pub open spec fn pow1024(k: nat) -> nat
    decreases k,
{
    if k == 0 {
        1
    } else {
        1024 * pow1024((k - 1) as nat)
    }
}

/// The gap between neighbouring `f64` values around `n`: `1` below `2^53`,
/// doubling with each further bit of magnitude.
pub open spec fn f64_spacing(n: nat) -> nat
    decreases n,
{
    if n < 0x20_0000_0000_0000 {
        1
    } else {
        2 * f64_spacing(n / 2)
    }
}

/// `a / d` rounded to the nearest integer, ties to the even neighbour.
pub open spec fn round_half_even(a: nat, d: nat) -> nat {
    let q = a / d;
    let r = a % d;
    if 2 * r > d || (2 * r == d && q % 2 == 1) {
        q + 1
    } else {
        q
    }
}

/// The value of `n as f64`: the nearest multiple of the local `f64` spacing,
/// ties to even.
pub open spec fn as_f64(n: nat) -> nat {
    round_half_even(n, f64_spacing(n)) * f64_spacing(n)
}

/// The binary unit a value is shown in: the largest of B, KiB, MiB, GiB, TiB
/// (as `0..=4`) whose size does not exceed it.
pub open spec fn unit_of(value: nat) -> nat {
    if value >= pow1024(4) {
        4
    } else if value >= pow1024(3) {
        3
    } else if value >= pow1024(2) {
        2
    } else if value >= pow1024(1) {
        1
    } else {
        0
    }
}

/// The name of binary unit `u` (`1..=4`).
pub open spec fn unit_name(u: nat) -> Seq<char> {
    if u == 1 {
        "KiB"@
    } else if u == 2 {
        "MiB"@
    } else if u == 3 {
        "GiB"@
    } else {
        "TiB"@
    }
}

/// A byte count in binary units: below one KiB the exact count and `B`;
/// otherwise the value of the count as `f64` in the largest fitting unit, to
/// one decimal (ties to even), then the unit.
pub open spec fn formatted_bytes(bytes: nat) -> Seq<char> {
    let value = as_f64(bytes);
    let u = unit_of(value);
    if u == 0 {
        dec(bytes) + " B"@
    } else {
        let tenths = round_half_even(10 * value, pow1024(u));
        dec(tenths / 10) + seq!['.', digit(tenths % 10), ' '] + unit_name(u)
    }
}

/// A duration in seconds as `Nd Nh Nm`, dropping leading zero units.
pub open spec fn uptime_text(seconds: nat) -> Seq<char> {
    let days = seconds / 86_400;
    let hours = (seconds % 86_400) / 3_600;
    let minutes = (seconds % 3_600) / 60;
    if days > 0 {
        dec(days) + "d "@ + dec(hours) + "h "@ + dec(minutes) + "m"@
    } else if hours > 0 {
        dec(hours) + "h "@ + dec(minutes) + "m"@
    } else {
        dec(minutes) + "m"@
    }
}

/// The sizes of the binary units.
proof fn lemma_pow1024_values()
    ensures
        pow1024(1) == 0x400,
        pow1024(2) == 0x10_0000,
        pow1024(3) == 0x4000_0000,
        pow1024(4) == 0x100_0000_0000,
{
    assert(pow1024(0) == 1);
    assert(pow1024(1) == 0x400);
    assert(pow1024(2) == 0x10_0000);
    assert(pow1024(3) == 0x4000_0000);
    assert(pow1024(4) == 0x100_0000_0000);
}

/// The f64 spacing around `n`, which for large `n` stays far below `n`.
fn f64_spacing_of(n: u64) -> (g: u64)
    ensures
        g == f64_spacing(n as nat),
        g >= 1,
        n >= 0x20_0000_0000_0000 ==> g * 0x10_0000_0000_0000 <= n,
    decreases n,
{
    if n < 0x20_0000_0000_0000 {
        1
    } else {
        let h = f64_spacing_of(n / 2);
        2 * h
    }
}

/// The value of `n as f64`, exactly, as an integer.
fn f64_value(n: u64) -> (v: u128)
    ensures
        v == as_f64(n as nat),
        v <= 0x1_0000_0000_0000_1000,
{
    let g = f64_spacing_of(n);
    assert(g <= 0x1000) by {
        if n >= 0x20_0000_0000_0000 {
            assert(g * 0x10_0000_0000_0000 <= n);
        }
    }
    let q = n / g;
    let r = n % g;
    proof {
        vstd::arithmetic::div_mod::lemma_fundamental_div_mod(n as int, g as int);
    }
    let rounded: u128 = if 2 * r > g || (2 * r == g && q % 2 == 1) {
        q as u128 + 1
    } else {
        q as u128
    };
    assert(rounded * g <= 0x1_0000_0000_0000_1000) by (nonlinear_arith)
        requires
            g * q + r == n,
            r < g,
            rounded <= q + 1,
            g <= 0x1000,
            n < 0x1_0000_0000_0000_0000,
    ;
    rounded * (g as u128)
}

/// `a / d` rounded to the nearest integer, ties to even.
fn round_div_even(a: u128, d: u128) -> (q: u128)
    requires
        0 < d <= 0x1_0000_0000_0000,
        a <= 0xFFFF_FFFF_FFFF_FFFF_FFFF,
    ensures
        q == round_half_even(a as nat, d as nat),
        q <= a / d + 1,
{
    let q = a / d;
    let r = a % d;
    if 2 * r > d || (2 * r == d && q % 2 == 1) {
        q + 1
    } else {
        q
    }
}

/// Formats a byte count using binary units (KiB, MiB, GiB, TiB).
pub fn format_bytes(bytes: u64) -> (text: String)
    ensures
        text@ == formatted_bytes(bytes as nat),
{
    let value = f64_value(bytes);
    let mut out = String::new();
    let unit: u64 = if value >= 0x100_0000_0000 {
        4
    } else if value >= 0x4000_0000 {
        3
    } else if value >= 0x10_0000 {
        2
    } else if value >= 0x400 {
        1
    } else {
        0
    };
    proof {
        lemma_pow1024_values();
    }
    if unit == 0 {
        push_decimal(&mut out, bytes);
        out.append(" B");
        return out;
    }
    let divisor: u128 = if unit == 4 {
        0x100_0000_0000
    } else if unit == 3 {
        0x4000_0000
    } else if unit == 2 {
        0x10_0000
    } else {
        0x400
    };
    let tenths = round_div_even(10 * value, divisor);
    assert(tenths / 10 <= 0xFFFF_FFFF_FFFF_FFFF) by (nonlinear_arith)
        requires
            tenths <= ((10 * value) as u128) / divisor + 1,
            divisor >= 0x400,
            value <= 0x1_0000_0000_0000_1000,
    ;
    push_decimal(&mut out, (tenths / 10) as u64);
    out.push('.');
    out.push(digit_char((tenths % 10) as u64));
    out.push(' ');
    if unit == 1 {
        out.append("KiB");
    } else if unit == 2 {
        out.append("MiB");
    } else if unit == 3 {
        out.append("GiB");
    } else {
        out.append("TiB");
    }
    proof {
        let t = tenths as nat;
        assert(out@ =~= dec(t / 10) + seq!['.', digit(t % 10), ' '] + unit_name(unit as nat));
    }
    out
}

/// Formats a duration in seconds as `Nd Nh Nm`, dropping leading zero units.
pub fn format_uptime(seconds: u64) -> (text: String)
    ensures
        text@ == uptime_text(seconds as nat),
{
    let days = seconds / 86_400;
    let hours = (seconds % 86_400) / 3_600;
    let minutes = (seconds % 3_600) / 60;
    let mut out = String::new();
    if days > 0 {
        push_decimal(&mut out, days);
        out.append("d ");
    }
    if days > 0 || hours > 0 {
        push_decimal(&mut out, hours);
        out.append("h ");
    }
    push_decimal(&mut out, minutes);
    out.append("m");
    out
}

/// How a duration splits into the shown units: whole days, hours below a day,
/// minutes below an hour, and the dropped seconds add back up to it.
pub proof fn lemma_uptime_parts(seconds: nat)
    ensures
        (seconds / 86_400) * 86_400 + ((seconds % 86_400) / 3_600) * 3_600 + ((seconds % 3_600)
            / 60) * 60 + seconds % 60 == seconds,
        (seconds % 86_400) / 3_600 < 24,
        (seconds % 3_600) / 60 < 60,
{
    assert((seconds / 86_400) * 86_400 + ((seconds % 86_400) / 3_600) * 3_600 + ((seconds % 3_600)
        / 60) * 60 + seconds % 60 == seconds) by (nonlinear_arith);
}

/// The report's GPU lines, one per adapter.
pub open spec fn gpu_lines(gpus: Seq<Seq<char>>) -> Seq<char>
    decreases gpus.len(),
{
    if gpus.len() == 0 {
        Seq::empty()
    } else {
        gpu_lines(gpus.drop_last()) + "GPU:       "@ + gpus.last() + "\n"@
    }
}

/// The report's line for one drive.
pub open spec fn drive_line(drive: DriveInfo) -> Seq<char> {
    "  "@ + drive.name@ + " "@ + formatted_bytes(drive.free as nat) + " free of "@
        + formatted_bytes(drive.total as nat) + "\n"@
}

/// The report's drive lines, one per drive.
pub open spec fn drive_lines(drives: Seq<DriveInfo>) -> Seq<char>
    decreases drives.len(),
{
    if drives.len() == 0 {
        Seq::empty()
    } else {
        drive_lines(drives.drop_last()) + drive_line(drives.last())
    }
}

/// The plain-text system report.
pub open spec fn report_text(info: SystemInfo) -> Seq<char> {
    "Windows Toolkit - system report\n\n"@
        + "OS:        "@ + info.os_name@ + " (build "@ + info.os_build@ + ")\n"@
        + "Machine:   "@ + info.computer_name@ + "\n"@
        + (if info.system_model@.len() > 0 {
        "Model:     "@ + info.system_model@ + "\n"@
    } else {
        Seq::empty()
    }) + "Uptime:    "@ + info.uptime@ + "\n"@
        + "CPU:       "@ + info.cpu@ + " ("@ + dec(info.logical_cpus as nat) + " logical processors)\n"@
        + gpu_lines(info.gpus.deep_view())
        + "Memory:    "@ + formatted_bytes(info.available_memory as nat) + " free of "@
        + formatted_bytes(info.total_memory as nat) + "\n"@
        + "Drives:\n"@ + drive_lines(info.drives@)
}

impl SystemInfo {
    /// Renders the overview as plain text for copying into a support request.
    pub fn to_report(&self) -> (report: String)
        ensures
            report@ == report_text(*self),
    {
        let mut report = String::new();
        report.append("Windows Toolkit - system report\n\n");
        report.append("OS:        ");
        report.append(self.os_name.as_str());
        report.append(" (build ");
        report.append(self.os_build.as_str());
        report.append(")\n");
        report.append("Machine:   ");
        report.append(self.computer_name.as_str());
        report.append("\n");
        let ghost head = report@;
        if !self.system_model.as_str().is_empty() {
            report.append("Model:     ");
            report.append(self.system_model.as_str());
            report.append("\n");
        }
        let ghost model_part = if self.system_model@.len() > 0 {
            "Model:     "@ + self.system_model@ + "\n"@
        } else {
            Seq::<char>::empty()
        };
        assert(report@ =~= head + model_part);
        report.append("Uptime:    ");
        report.append(self.uptime.as_str());
        report.append("\n");
        report.append("CPU:       ");
        report.append(self.cpu.as_str());
        report.append(" (");
        push_decimal(&mut report, self.logical_cpus as u64);
        report.append(" logical processors)\n");
        let ghost before_gpus = report@;
        let ghost gpus = self.gpus.deep_view();
        for i in 0..self.gpus.len()
            invariant
                gpus == self.gpus.deep_view(),
                report@ == before_gpus + gpu_lines(gpus.take(i as int)),
        {
            report.append("GPU:       ");
            report.append(self.gpus[i].as_str());
            report.append("\n");
            assert(gpus.take(i + 1).drop_last() =~= gpus.take(i as int));
            assert(report@ =~= before_gpus + gpu_lines(gpus.take(i + 1)));
        }
        assert(gpus.take(gpus.len() as int) =~= gpus);
        report.append("Memory:    ");
        let free = format_bytes(self.available_memory);
        report.append(free.as_str());
        report.append(" free of ");
        let total = format_bytes(self.total_memory);
        report.append(total.as_str());
        report.append("\n");
        report.append("Drives:\n");
        let ghost before_drives = report@;
        let ghost drives = self.drives@;
        for i in 0..self.drives.len()
            invariant
                drives == self.drives@,
                report@ == before_drives + drive_lines(drives.take(i as int)),
        {
            let drive = &self.drives[i];
            report.append("  ");
            report.append(drive.name.as_str());
            report.append(" ");
            let free = format_bytes(drive.free);
            report.append(free.as_str());
            report.append(" free of ");
            let total = format_bytes(drive.total);
            report.append(total.as_str());
            report.append("\n");
            assert(drives.take(i + 1).drop_last() =~= drives.take(i as int));
            assert(report@ =~= before_drives + drive_lines(drives.take(i + 1)));
        }
        assert(drives.take(drives.len() as int) =~= drives);
        assert(report@ =~= report_text(*self));
        report
    }
}

/// The report line of a drive, spelled out: two spaces, its name, its free
/// space, ` free of `, its capacity, and a line break.
pub open spec fn drive_report_line(drive: DriveInfo) -> Seq<char> {
    seq![' ', ' '] + drive.name@ + seq![' '] + formatted_bytes(drive.free as nat) + seq![
        ' ',
        'f',
        'r',
        'e',
        'e',
        ' ',
        'o',
        'f',
        ' ',
    ] + formatted_bytes(drive.total as nat) + seq!['\n']
}

/// The report line of a GPU, spelled out.
pub open spec fn gpu_report_line(gpu: Seq<char>) -> Seq<char> {
    seq!['G', 'P', 'U', ':', ' ', ' ', ' ', ' ', ' ', ' ', ' '] + gpu + seq!['\n']
}

proof fn lemma_drive_lines_flat(drives: Seq<DriveInfo>)
    ensures
        drive_lines(drives) == Seq::new(drives.len(), |i: int| drive_report_line(drives[i])).flatten_alt(),
    decreases drives.len(),
{
    reveal_strlit("  ");
    reveal_strlit(" ");
    reveal_strlit(" free of ");
    reveal_strlit("\n");
    if drives.len() > 0 {
        lemma_drive_lines_flat(drives.drop_last());
        let lines = Seq::new(drives.len(), |i: int| drive_report_line(drives[i]));
        assert(lines.drop_last() =~= Seq::new(
            drives.drop_last().len(),
            |i: int| drive_report_line(drives.drop_last()[i]),
        ));
        assert(drive_line(drives.last()) =~= drive_report_line(drives.last()));
    }
}

proof fn lemma_gpu_lines_flat(gpus: Seq<Seq<char>>)
    ensures
        gpu_lines(gpus) == Seq::new(gpus.len(), |i: int| gpu_report_line(gpus[i])).flatten_alt(),
    decreases gpus.len(),
{
    reveal_strlit("GPU:       ");
    reveal_strlit("\n");
    if gpus.len() > 0 {
        lemma_gpu_lines_flat(gpus.drop_last());
        let lines = Seq::new(gpus.len(), |i: int| gpu_report_line(gpus[i]));
        assert(lines.drop_last() =~= Seq::new(
            gpus.drop_last().len(),
            |i: int| gpu_report_line(gpus.drop_last()[i]),
        ));
        assert("GPU:       "@ + gpus.last() + "\n"@ =~= gpu_report_line(gpus.last()));
    }
}

/// The report ends with its drive section: `Drives:` on a line of its own,
/// then one line per drive, in order, each naming the drive with its free
/// space and capacity; and every GPU has its own line, in order, just before
/// the memory line.
pub proof fn lemma_report_lists_every_drive_and_gpu(info: SystemInfo)
    ensures
        ({
            let report = report_text(info);
            let drives = Seq::new(info.drives@.len(), |i: int| drive_report_line(info.drives@[i])).flatten_alt();
            let tail = seq!['D', 'r', 'i', 'v', 'e', 's', ':', '\n'] + drives;
            &&& report.len() >= tail.len()
            &&& report.skip(report.len() - tail.len()) == tail
        }),
        ({
            let report = report_text(info);
            let gpus = Seq::new(info.gpus@.len(), |i: int| gpu_report_line(info.gpus@[i]@)).flatten_alt();
            exists|k: int|
                0 <= k && k + gpus.len() + 11 <= report.len() && #[trigger] report.subrange(
                    k,
                    k + gpus.len() + 11,
                ) == gpus + seq!['M', 'e', 'm', 'o', 'r', 'y', ':', ' ', ' ', ' ', ' ']
        }),
{
    reveal_strlit("Drives:\n");
    reveal_strlit("Memory:    ");
    lemma_drive_lines_flat(info.drives@);
    let gpu_views = info.gpus.deep_view();
    lemma_gpu_lines_flat(gpu_views);
    assert(Seq::new(gpu_views.len(), |i: int| gpu_report_line(gpu_views[i])) =~= Seq::new(
        info.gpus@.len(),
        |i: int| gpu_report_line(info.gpus@[i]@),
    ));
    let report = report_text(info);
    let drives = Seq::new(info.drives@.len(), |i: int| drive_report_line(info.drives@[i])).flatten_alt();
    let tail = seq!['D', 'r', 'i', 'v', 'e', 's', ':', '\n'] + drives;
    let head = report.take(report.len() - tail.len());
    let model = if info.system_model@.len() > 0 {
        "Model:     "@ + info.system_model@ + "\n"@
    } else {
        Seq::empty()
    };
    let before = "Windows Toolkit - system report\n\n"@ + "OS:        "@ + info.os_name@ + " (build "@
        + info.os_build@ + ")\n"@ + "Machine:   "@ + info.computer_name@ + "\n"@ + model
        + "Uptime:    "@ + info.uptime@ + "\n"@ + "CPU:       "@ + info.cpu@ + " ("@ + dec(
        info.logical_cpus as nat,
    ) + " logical processors)\n"@;
    let gpus = gpu_lines(gpu_views);
    let after = formatted_bytes(info.available_memory as nat) + " free of "@ + formatted_bytes(
        info.total_memory as nat,
    ) + "\n"@;
    assert(report =~= before + gpus + "Memory:    "@ + after + tail);
    assert(report.skip(report.len() - tail.len()) =~= tail);
    let k = before.len() as int;
    assert(report.subrange(k, k + gpus.len() + 11) =~= gpus + seq![
        'M',
        'e',
        'm',
        'o',
        'r',
        'y',
        ':',
        ' ',
        ' ',
        ' ',
        ' ',
    ]);
}

/// The uptime text shows whole days, hours below a day and minutes below an
/// hour that add up to the duration, give or take the dropped seconds: the
/// text is `Dd Hh Mm`, `Hh Mm` or `Mm`, leading zero units dropped.
pub proof fn lemma_uptime_text_adds_up(seconds: nat)
    ensures
        exists|d: nat, h: nat, m: nat|
            {
                &&& h < 24
                &&& m < 60
                &&& d * 86_400 + h * 3_600 + m * 60 <= seconds
                &&& seconds < d * 86_400 + h * 3_600 + m * 60 + 60
                &&& #[trigger] uptime_text(seconds) == if d > 0 {
                    dec(d) + seq!['d', ' '] + dec(h) + seq!['h', ' '] + dec(m) + seq!['m']
                } else if h > 0 {
                    dec(h) + seq!['h', ' '] + dec(m) + seq!['m']
                } else {
                    dec(m) + seq!['m']
                }
            },
{
    reveal_strlit("d ");
    reveal_strlit("h ");
    reveal_strlit("m");
    lemma_uptime_parts(seconds);
    let d = seconds / 86_400;
    let h = (seconds % 86_400) / 3_600;
    let m = (seconds % 3_600) / 60;
    assert(seconds % 60 < 60);
    assert(uptime_text(seconds) =~= if d > 0 {
        dec(d) + seq!['d', ' '] + dec(h) + seq!['h', ' '] + dec(m) + seq!['m']
    } else if h > 0 {
        dec(h) + seq!['h', ' '] + dec(m) + seq!['m']
    } else {
        dec(m) + seq!['m']
    });
}

} // verus!
