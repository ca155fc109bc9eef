//! Send/Hash Pipeline decision logic: artifact naming, the shell command
//! line, magnitude formatting, telemetry parsing, the progress monitor, and
//! the final publish-or-discard decision.  The process spawning, stream
//! draining and file renames around these live outside the library.

use vstd::prelude::*;

use crate::text::{
    char_repeat, dec_str, dec_str_pad, first_index_of, is_prefix, parse_u32, parse_u64, pow10,
    push_char, push_dec, push_dec_pad, push_int, replace_ch, replace_char, spec_parse_u32,
    spec_parse_u64, split_once, split_once_exec, starts_with,
};
use crate::zfs_error::{ZfsError, ZfsErrorKind};

verus! {

/// The artifact file name for a snapshot: path separators become
/// underscores and the archive extension is appended.
pub open spec fn spec_artifact_file_name(snapshot: Seq<char>) -> Seq<char> {
    replace_ch(snapshot, '/', '_') + ".zfs.zst.gpg"@
}

pub fn artifact_file_name(snapshot: &str) -> (r: String)
    ensures
        r@ == spec_artifact_file_name(snapshot@),
{
    let mut name = replace_char(snapshot, '/', '_');
    name.append(".zfs.zst.gpg");
    name
}

/// The in-flight name of an artifact or sidecar being written.
pub fn partial_name(name: &str) -> (r: String)
    ensures
        r@ == name@ + "_partial"@,
{
    let mut out = name.to_owned();
    out.append("_partial");
    out
}

/// The digest sidecar name for an artifact or partial file.
pub fn sidecar_name(name: &str) -> (r: String)
    ensures
        r@ == name@ + ".sha256sum"@,
{
    let mut out = name.to_owned();
    out.append(".sha256sum");
    out
}

/// What the parent writes into the secret channel: the passphrase and a
/// terminating newline, and nothing else.
pub fn passphrase_line(passphrase: &str) -> (r: String)
    ensures
        r@ == passphrase@ + "\n"@,
{
    let mut out = passphrase.to_owned();
    out.append("\n");
    out
}

/// The shell pipeline that streams a snapshot.  `$0` and `$1` are filled in
/// by the shell from extra arguments, so the snapshot name and the baseline
/// label never need escaping.
pub open spec fn spec_send_command_line(
    use_sudo: bool,
    incremental: bool,
    filter: Option<Seq<char>>,
) -> Seq<char> {
    (if use_sudo { "sudo zfs"@ } else { "zfs"@ }) + " send --parsable --verbose "@ + (if incremental {
        "-i @$0"@
    } else {
        ""@
    }) + " $1 "@ + (match filter {
        Some(f) => " | "@ + f,
        None => ""@,
    })
}

pub fn send_command_line(use_sudo: bool, incremental: bool, filter: Option<&str>) -> (r: String)
    ensures
        r@ == spec_send_command_line(
            use_sudo,
            incremental,
            match filter {
                Some(f) => Some(f@),
                None => None,
            },
        ),
{
    let mut out = if use_sudo { "sudo zfs".to_owned() } else { "zfs".to_owned() };
    out.append(" send --parsable --verbose ");
    if incremental {
        out.append("-i @$0");
    } else {
        out.append("");
    }
    out.append(" $1 ");
    match filter {
        Some(f) => {
            out.append(" | ");
            out.append(f);
        },
        None => (),
    }
    proof {
        reveal_strlit("");
        assert(out@ =~= spec_send_command_line(
            use_sudo,
            incremental,
            match filter {
                Some(f) => Some(f@),
                None => None,
            },
        ));
    }
    out
}

/// The compression-and-encryption filter: the passphrase reaches gpg only
/// through the inherited descriptor, never through an argument.
pub open spec fn spec_filter_command(child_fd: int) -> Seq<char> {
    "zstd -T0 --size-hint=1000000000 | gpg --batch --symmetric --passphrase-fd "@ + dec_str(
        child_fd as nat,
    ) + " --output -"@
}

pub fn filter_command(child_fd: i32) -> (r: String)
    requires
        child_fd >= 0,
    ensures
        r@ == spec_filter_command(child_fd as int),
{
    let mut out = "zstd -T0 --size-hint=1000000000 | gpg --batch --symmetric --passphrase-fd "
        .to_owned();
    push_dec(&mut out, child_fd as u64);
    out.append(" --output -");
    proof {
        assert(out@ =~= spec_filter_command(child_fd as int));
    }
    out
}

/// Powers of one thousand.
pub open spec fn pow1000(k: nat) -> nat
    decreases k,
{
    if k == 0 {
        1
    } else {
        1000 * pow1000((k - 1) as nat)
    }
}

/// The thousands-magnitude of `n`: the largest `k` with `n >= 1000^k`,
/// for `n` at least 1000 (a `u64` never reaches `1000^7`).
pub open spec fn spec_magnitude(n: nat) -> nat {
    if n < 1_000_000 { 1 }
    else if n < 1_000_000_000 { 2 }
    else if n < 1_000_000_000_000 { 3 }
    else if n < 1_000_000_000_000_000 { 4 }
    else if n < 1_000_000_000_000_000_000 { 5 }
    else { 6 }
}

pub open spec fn suffix_char(mag: nat) -> char {
    if mag == 1 { 'k' }
    else if mag == 2 { 'M' }
    else if mag == 3 { 'G' }
    else if mag == 4 { 'T' }
    else if mag == 5 { 'P' }
    else { 'E' }
}

/// Human-readable magnitude rendering with SI thousands suffixes: numbers
/// below 1000 are shown as they are; larger numbers are scaled by the
/// largest fitting power of one thousand and shown with `decimals` digits
/// after the point (truncated) and the suffix `k`, `M`, `G`, `T`, `P`, `E`.
pub open spec fn spec_human_number(n: nat, decimals: nat) -> Seq<char> {
    if n < 1000 {
        dec_str(n)
    } else {
        let mag = spec_magnitude(n);
        let scaled = n * pow10(decimals) / pow1000(mag);
        let ip = scaled / pow10(decimals);
        let fp = scaled % pow10(decimals);
        if decimals == 0 {
            dec_str(ip) + seq![' ', suffix_char(mag)]
        } else {
            dec_str(ip) + seq!['.'] + dec_str_pad(fp, decimals) + seq![' ', suffix_char(mag)]
        }
    }
}

pub proof fn lemma_pow10_mono(a: nat, b: nat)
    requires
        a <= b,
    ensures
        pow10(a) <= pow10(b),
    decreases b,
{
    if a < b {
        lemma_pow10_mono(a, (b - 1) as nat);
        assert(pow10(b) == 10 * pow10((b - 1) as nat));
        assert(10 * pow10((b - 1) as nat) >= pow10((b - 1) as nat)) by (nonlinear_arith);
    }
}

fn pow10_exec(k: u64) -> (r: u64)
    requires
        k <= 18,
    ensures
        r == pow10(k as nat),
{
    let mut i: u64 = 0;
    let mut r: u64 = 1;
    proof {
        assert(pow10(18) == 1_000_000_000_000_000_000) by {
            reveal_with_fuel(pow10, 19);
        }
    }
    while i < k
        invariant
            i <= k <= 18,
            r == pow10(i as nat),
            pow10(18) == 1_000_000_000_000_000_000,
        decreases k - i,
    {
        proof {
            lemma_pow10_mono((i + 1) as nat, 18);
        }
        r = r * 10;
        i = i + 1;
    }
    r
}

fn pow1000_exec(k: u64) -> (r: u64)
    requires
        k <= 6,
    ensures
        r == pow1000(k as nat),
{
    proof {
        reveal_with_fuel(pow1000, 7);
    }
    if k == 0 { 1 }
    else if k == 1 { 1000 }
    else if k == 2 { 1_000_000 }
    else if k == 3 { 1_000_000_000 }
    else if k == 4 { 1_000_000_000_000 }
    else if k == 5 { 1_000_000_000_000_000 }
    else { 1_000_000_000_000_000_000 }
}

fn magnitude(n: u64) -> (m: u64)
    requires
        n >= 1000,
    ensures
        m == spec_magnitude(n as nat),
        1 <= m <= 6,
        pow1000(m as nat) <= n < pow1000((m + 1) as nat),
{
    proof {
        reveal_with_fuel(pow1000, 8);
    }
    if n < 1_000_000 { 1 }
    else if n < 1_000_000_000 { 2 }
    else if n < 1_000_000_000_000 { 3 }
    else if n < 1_000_000_000_000_000 { 4 }
    else if n < 1_000_000_000_000_000_000 { 5 }
    else { 6 }
}

pub fn human_number(n: u64, decimals: usize) -> (r: String)
    requires
        decimals <= 18,
    ensures
        r@ == spec_human_number(n as nat, decimals as nat),
{
    if n < 1000 {
        return crate::text::u64_to_string(n);
    }
    let mag = magnitude(n);
    let p10d = pow10_exec(decimals as u64);
    let p1000m = pow1000_exec(mag);
    proof {
        assert(pow10(18) == 1_000_000_000_000_000_000) by {
            reveal_with_fuel(pow10, 19);
        }
        lemma_pow10_mono(decimals as nat, 18);
        assert((n as int) * (p10d as int) <= (0xffff_ffff_ffff_ffffu64 as int) * (
        1_000_000_000_000_000_000int)) by (nonlinear_arith)
            requires
                n <= 0xffff_ffff_ffff_ffffu64,
                p10d <= 1_000_000_000_000_000_000,
        ;
    }
    let wide: u128 = (n as u128) * (p10d as u128);
    let scaled: u128 = wide / (p1000m as u128);
    proof {
        assert((n as int) * (p10d as int) / (p1000m as int) < 1000 * (p10d as int))
            by (nonlinear_arith)
            requires
                (n as int) < 1000 * (p1000m as int),
                p1000m >= 1,
                p10d >= 1,
        ;
        assert(pow1000((mag + 1) as nat) == 1000 * pow1000(mag as nat));
        assert(pow10(decimals as nat) >= 1) by {
            lemma_pow10_mono(0, decimals as nat);
        }
        assert(pow1000(mag as nat) >= 1) by {
            reveal_with_fuel(pow1000, 7);
        }
    }
    proof {
        assert((scaled as int) / (p10d as int) < 1000) by (nonlinear_arith)
            requires
                (scaled as int) < 1000 * (p10d as int),
                p10d >= 1,
        ;
    }
    let ip: u64 = (scaled / (p10d as u128)) as u64;
    let fp: u64 = (scaled % (p10d as u128)) as u64;
    let mut out = crate::text::u64_to_string(ip);
    if decimals > 0 {
        push_char(&mut out, '.');
        push_dec_pad(&mut out, fp, decimals as u64);
    }
    push_char(&mut out, ' ');
    let suffix = if mag == 1 { 'k' }
    else if mag == 2 { 'M' }
    else if mag == 3 { 'G' }
    else if mag == 4 { 'T' }
    else if mag == 5 { 'P' }
    else { 'E' };
    push_char(&mut out, suffix);
    proof {
        assert(out@ =~= spec_human_number(n as nat, decimals as nat));
    }
    out
}

/// One line of the pipeline's progress telemetry, classified.
#[derive(Clone, Copy, PartialEq, Eq, Structural, Debug)]
pub enum TelemetryLine {
    Ignored,
    Size(u64),
    Progress { seconds: u64, bytes_sent: u64, bytes_total: u64 },
    Malformed,
}

/// A strict `HH:MM:SS` field: three colon-separated decimal numbers, taken
/// as hours, minutes and seconds of the day.
pub open spec fn spec_parse_time(t: Seq<char>) -> Option<u64> {
    match split_once(t, ':') {
        None => None,
        Some(hm) => match split_once(hm.1, ':') {
            None => None,
            Some(ms) => {
                if first_index_of(ms.1, ':') >= 0 {
                    None
                } else if spec_parse_u32(hm.0) is Some && spec_parse_u32(ms.0) is Some
                    && spec_parse_u32(ms.1) is Some {
                    Some(
                        ((spec_parse_u32(hm.0)->0 as nat) * 3600 + (spec_parse_u32(ms.0)->0 as nat)
                            * 60 + (spec_parse_u32(ms.1)->0 as nat)) as u64,
                    )
                } else {
                    None
                }
            },
        },
    }
}

pub fn parse_time(t: &str) -> (r: Option<u64>)
    ensures
        r == spec_parse_time(t@),
{
    match split_once_exec(t, ':') {
        None => None,
        Some((h, rest)) => match split_once_exec(rest.as_str(), ':') {
            None => None,
            Some((m, s)) => {
                match crate::text::find_char(s.as_str(), ':') {
                    Some(_) => None,
                    None => {
                        let hv = parse_u32(h.as_str());
                        let mv = parse_u32(m.as_str());
                        let sv = parse_u32(s.as_str());
                        match (hv, mv, sv) {
                            (Some(hn), Some(mn), Some(sn)) => Some(
                                (hn as u64) * 3600 + (mn as u64) * 60 + (sn as u64),
                            ),
                            _ => None,
                        }
                    },
                }
            },
        },
    }
}

/// The classification of a telemetry line: `incremental` and `full`
/// summaries are ignored, a `size` line announces the total byte count, and
/// any other line must be a strict `time<TAB>sent<TAB>total` triple; all
/// else is a protocol violation.
pub open spec fn spec_classify_line(s: Seq<char>) -> TelemetryLine {
    if is_prefix("incremental\t"@, s) || is_prefix("full\t"@, s) {
        TelemetryLine::Ignored
    } else if is_prefix("size\t"@, s) {
        match spec_parse_u64(s.skip("size\t"@.len() as int)) {
            Some(v) => TelemetryLine::Size(v),
            None => TelemetryLine::Malformed,
        }
    } else {
        match split_once(s, '\t') {
            None => TelemetryLine::Malformed,
            Some(ar) => match split_once(ar.1, '\t') {
                None => TelemetryLine::Malformed,
                Some(bc) => {
                    if first_index_of(bc.1, '\t') >= 0 {
                        TelemetryLine::Malformed
                    } else if spec_parse_time(ar.0) is Some && spec_parse_u64(bc.0) is Some
                        && spec_parse_u64(bc.1) is Some {
                        TelemetryLine::Progress {
                            seconds: spec_parse_time(ar.0)->0,
                            bytes_sent: spec_parse_u64(bc.0)->0,
                            bytes_total: spec_parse_u64(bc.1)->0,
                        }
                    } else {
                        TelemetryLine::Malformed
                    }
                },
            },
        }
    }
}

pub fn parse_telemetry_line(line: &str) -> (r: TelemetryLine)
    ensures
        r == spec_classify_line(line@),
{
    if starts_with(line, "incremental\t") || starts_with(line, "full\t") {
        return TelemetryLine::Ignored;
    }
    if starts_with(line, "size\t") {
        proof {
            reveal_strlit("size\t");
        }
        let n = line.unicode_len();
        let rest = line.substring_char(5, n);
        proof {
            assert(rest@ =~= line@.skip(5));
        }
        return match parse_u64(rest) {
            Some(v) => TelemetryLine::Size(v),
            None => TelemetryLine::Malformed,
        };
    }
    match split_once_exec(line, '\t') {
        None => TelemetryLine::Malformed,
        Some((a, rest)) => match split_once_exec(rest.as_str(), '\t') {
            None => TelemetryLine::Malformed,
            Some((b, c)) => {
                match crate::text::find_char(c.as_str(), '\t') {
                    Some(_) => TelemetryLine::Malformed,
                    None => {
                        let tv = parse_time(a.as_str());
                        let sentv = parse_u64(b.as_str());
                        let totv = parse_u64(c.as_str());
                        match (tv, sentv, totv) {
                            (Some(seconds), Some(bytes_sent), Some(bytes_total)) =>
                                TelemetryLine::Progress { seconds, bytes_sent, bytes_total },
                            _ => TelemetryLine::Malformed,
                        }
                    },
                }
            },
        },
    }
}

/// A number of tenths as a decimal with one digit after the point.
pub open spec fn tenths_str(v: int) -> Seq<char> {
    if v < 0 {
        seq!['-'] + dec_str(((-v) / 10) as nat) + seq!['.'] + dec_str(((-v) % 10) as nat)
    } else {
        dec_str((v / 10) as nat) + seq!['.'] + dec_str((v % 10) as nat)
    }
}

fn push_tenths_wide(s: &mut String, a: u128)
    ensures
        final(s)@ == old(s)@ + tenths_str(a as int),
{
    crate::text::push_dec_u128(s, a / 10);
    push_char(s, '.');
    crate::text::push_dec_u128(s, a % 10);
    proof {
        assert(s@ =~= old(s)@ + tenths_str(a as int));
    }
}

fn push_tenths_signed(s: &mut String, v: i128)
    requires
        v != i128::MIN,
    ensures
        final(s)@ == old(s)@ + tenths_str(v as int),
{
    if v < 0 {
        push_char(s, '-');
        crate::text::push_dec_u128(s, ((-v) as u128) / 10);
        push_char(s, '.');
        crate::text::push_dec_u128(s, ((-v) as u128) % 10);
    } else {
        push_tenths_wide(s, v as u128);
    }
    proof {
        assert(s@ =~= old(s)@ + tenths_str(v as int));
    }
}

/// The self-overwriting status line: elapsed time, percent complete to one
/// decimal, the bytes read and written in human units, and the observed
/// compression ratio `1 - written/read` as a percentage to one decimal.
/// Elapsed time is counted from the monitor's start; a clock reading before
/// the start shows as zero.  Ratios against an unknown total or an empty
/// transfer show as zero.
pub open spec fn spec_status_line(
    start: u64,
    seconds: u64,
    sent: u64,
    out_bytes: u64,
    size: u64,
) -> Seq<char> {
    let e: int = if seconds >= start { seconds - start } else { 0 };
    let pt: int = if size > 0 { (sent as int) * 1000 / (size as int) } else { 0 };
    let ct: int = if sent > 0 { 1000 - (out_bytes as int) * 1000 / (sent as int) } else { 0 };
    dec_str_pad((e / 3600) as nat, 2) + seq![':'] + dec_str_pad(((e / 60) % 60) as nat, 2)
        + seq![':'] + dec_str_pad((e % 60) as nat, 2) + seq![' '] + tenths_str(pt) + "% "@
        + spec_human_number(sent as nat, 1) + "B in "@ + spec_human_number(out_bytes as nat, 1)
        + "B out ("@ + tenths_str(ct) + "% compressed)"@
}

pub fn render_status(start: u64, seconds: u64, sent: u64, out_bytes: u64, size: u64) -> (r: String)
    ensures
        r@ == spec_status_line(start, seconds, sent, out_bytes, size),
{
    let e: u64 = if seconds >= start { seconds - start } else { 0 };
    let mut out = String::new();
    push_dec_pad(&mut out, e / 3600, 2);
    push_char(&mut out, ':');
    push_dec_pad(&mut out, (e / 60) % 60, 2);
    push_char(&mut out, ':');
    push_dec_pad(&mut out, e % 60, 2);
    push_char(&mut out, ' ');
    let pt: u128 = if size > 0 {
        (sent as u128) * 1000 / (size as u128)
    } else {
        0
    };
    push_tenths_wide(&mut out, pt);
    out.append("% ");
    let hs = human_number(sent, 1);
    out.append(hs.as_str());
    out.append("B in ");
    let ho = human_number(out_bytes, 1);
    out.append(ho.as_str());
    out.append("B out (");
    let ct: i128 = if sent > 0 {
        1000 - ((out_bytes as i128) * 1000) / (sent as i128)
    } else {
        0
    };
    push_tenths_signed(&mut out, ct);
    out.append("% compressed)");
    proof {
        assert(out@ =~= spec_status_line(start, seconds, sent, out_bytes, size));
    }
    out
}

/// What one telemetry line asks the caller to do.
pub enum SendStep {
    /// Nothing to do for this line.
    Continue,
    /// Print the announced total size.
    Announce(String),
    /// Redraw the status line with this text.
    Status(String),
    /// The snapshot is empty: stop reading, discard the partial file, succeed.
    EmptySnapshot,
    /// The telemetry could not be parsed: abort the operation.
    Fail(ZfsError),
}

/// The state the telemetry reader carries across lines: when the operation
/// started (seconds of the day), the announced total size, and the width of
/// the last status line drawn, so the next one can blank it out.
pub struct SendMonitor {
    pub start_seconds: u64,
    pub size: u64,
    pub last_line_len: usize,
}

impl SendMonitor {
    pub fn new(start_seconds: u64) -> (r: SendMonitor)
        ensures
            r.start_seconds == start_seconds,
            r.size == 0,
            r.last_line_len == 0,
    {
        SendMonitor { start_seconds, size: 0, last_line_len: 0 }
    }

    /// Consumes one stderr line together with the byte count written out so
    /// far, updates the carried state, and says what to do: a `size 0` line
    /// means an empty snapshot, a malformed line is a protocol error, and a
    /// progress triple yields a redrawn status line padded to blank out the
    /// previous one.
    pub fn step(&mut self, line: &str, out_bytes: u64) -> (r: SendStep)
        ensures
            final(self).start_seconds == old(self).start_seconds,
            match spec_classify_line(line@) {
                TelemetryLine::Ignored => r is Continue && *final(self) == *old(self),
                TelemetryLine::Size(v) => {
                    &&& final(self).size == v
                    &&& final(self).last_line_len == old(self).last_line_len
                    &&& if v == 0 {
                        r is EmptySnapshot
                    } else {
                        r is Announce && r->Announce_0@ == "Full size: "@ + spec_human_number(
                            v as nat,
                            1,
                        ) + "B"@
                    }
                },
                TelemetryLine::Progress { seconds, bytes_sent, bytes_total } => {
                    let outline = spec_status_line(
                        old(self).start_seconds,
                        seconds,
                        bytes_sent,
                        out_bytes,
                        old(self).size,
                    );
                    let spacing: nat = if old(self).last_line_len > outline.len() {
                        (old(self).last_line_len - outline.len()) as nat
                    } else {
                        0
                    };
                    &&& final(self).size == old(self).size
                    &&& final(self).last_line_len == outline.len()
                    &&& r is Status
                    &&& r->Status_0@ == outline + char_repeat(' ', spacing)
                },
                TelemetryLine::Malformed => {
                    &&& *final(self) == *old(self)
                    &&& r is Fail
                    &&& r->Fail_0.kind == ZfsErrorKind::Protocol
                    &&& r->Fail_0.descr@ == "Unrecognized output: "@ + line@
                },
            },
    {
        let t = parse_telemetry_line(line);
        match t {
            TelemetryLine::Ignored => SendStep::Continue,
            TelemetryLine::Size(v) => {
                self.size = v;
                if v == 0 {
                    SendStep::EmptySnapshot
                } else {
                    let mut msg = "Full size: ".to_owned();
                    let h = human_number(v, 1);
                    msg.append(h.as_str());
                    msg.append("B");
                    proof {
                        assert(msg@ =~= "Full size: "@ + spec_human_number(v as nat, 1) + "B"@);
                    }
                    SendStep::Announce(msg)
                }
            },
            TelemetryLine::Progress { seconds, bytes_sent, bytes_total: _ } => {
                let outline = render_status(
                    self.start_seconds,
                    seconds,
                    bytes_sent,
                    out_bytes,
                    self.size,
                );
                let olen = outline.as_str().unicode_len();
                let spacing = if self.last_line_len > olen {
                    self.last_line_len - olen
                } else {
                    0
                };
                let mut padded = outline;
                crate::text::push_repeat(&mut padded, ' ', spacing);
                self.last_line_len = olen;
                SendStep::Status(padded)
            },
            TelemetryLine::Malformed => {
                let mut msg = "Unrecognized output: ".to_owned();
                msg.append(line);
                SendStep::Fail(ZfsError::protocol(msg))
            },
        }
    }

    /// The publish-or-discard decision once both concurrent paths are done:
    /// a failure in the hashing path wins over everything; then a non-zero
    /// pipeline exit fails the operation with its code and nothing is
    /// promoted; then an announced size of zero discards the partial file
    /// and succeeds with no artifact; otherwise the partial files are
    /// promoted by rename.
    pub fn finish(&self, hash_error: Option<String>, success: bool, exit_code: i32) -> (r: Result<
        SendOutcome,
        ZfsError,
    >)
        ensures
            match hash_error {
                Some(msg) => r is Err && r->Err_0.kind == ZfsErrorKind::Io && r->Err_0.descr@
                    == msg@,
                None => {
                    if !success {
                        r is Err && r->Err_0.kind == ZfsErrorKind::ExternalProcess(exit_code)
                    } else if self.size == 0 {
                        r is Ok && r->Ok_0 is DiscardPartial
                    } else {
                        r is Ok && r->Ok_0 is Promote
                    }
                },
            },
    {
        match hash_error {
            Some(msg) => Err(ZfsError::io(msg)),
            None => {
                if !success {
                    let mut msg = "'zfs send' returned nonzero exit code: ".to_owned();
                    push_int(&mut msg, exit_code as i64);
                    Err(ZfsError::external_process(exit_code, msg))
                } else if self.size == 0 {
                    Ok(SendOutcome::DiscardPartial)
                } else {
                    Ok(SendOutcome::Promote)
                }
            },
        }
    }
}

/// How a successful operation ends: the partial artifact is either
/// discarded (empty snapshot) or promoted to its final name.
#[derive(Clone, Copy, PartialEq, Eq, Structural, Debug)]
pub enum SendOutcome {
    DiscardPartial,
    Promote,
}

} // verus!
