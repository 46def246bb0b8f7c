//! What the converter is asked to do and what its answers mean: version
//! probing, probe output parsing, PCM codec selection and the argument list
//! of a conversion. Spawning the processes is the application's part.
use vstd::prelude::*;
use crate::path::shown;
use crate::audio_format::AudioFormat;
use crate::config::Config;
use crate::path::{FsPath, PathView};
use crate::plan::ConversionJob;
use crate::text::{
    append_str, chars_of, decimal, decimal_string, is_space_exec, lossy_utf8, string_from_chars,
    string_of, trim, trim_chars,
};

verus! {

// ---------------------------------------------------------------------------
// Version probing
// ---------------------------------------------------------------------------
/// What probing `<tool> -version` found.
#[derive(Debug)]
pub struct VersionProbe {
    pub executable_found: bool,
    pub version: Result<String, String>,
}

/// Why no version could be read.
#[derive(Debug)]
pub struct VersionError {
    /// The program could not be started at all.
    pub spawn_failed: bool,
    pub message: String,
}

/// How running a tool went, as the application observed it.
pub enum ToolRun {
    /// The program could not be started; `error` describes why.
    SpawnFailed { error: String },
    /// The program ran: whether it exited successfully, its exit status as
    /// text, and what it wrote to standard output.
    Exited { success: bool, status: String, stdout: Vec<u8> },
}

pub enum ToolRunView {
    SpawnFailed { error: Seq<char> },
    Exited { success: bool, status: Seq<char>, stdout: Seq<u8> },
}

impl View for ToolRun {
    type V = ToolRunView;

    open spec fn view(&self) -> ToolRunView {
        match self {
            ToolRun::SpawnFailed { error } => ToolRunView::SpawnFailed { error: error@ },
            ToolRun::Exited { success, status, stdout } => ToolRunView::Exited {
                success: *success,
                status: status@,
                stdout: stdout@,
            },
        }
    }
}

/// The text of the error that `String::from_utf8` reports for `bytes`; it
/// depends on the bytes alone.
pub uninterp spec fn utf8_error_text(bytes: Seq<u8>) -> Seq<char>;

/// Decodes standard output as UTF-8 (`String::from_utf8`): the text when
/// the bytes are valid UTF-8, else the decoder's error message.
#[verifier::external_body]
fn decode_output(bytes: Vec<u8>) -> (r: Result<String, String>)
    ensures
        match r {
            Ok(s) => vstd::utf8::valid_utf8(bytes@) && s@ == vstd::utf8::decode_utf8(bytes@),
            Err(m) => !vstd::utf8::valid_utf8(bytes@) && m@ == utf8_error_text(bytes@),
        },
{
    String::from_utf8(bytes).map_err(|e| e.to_string())
}

/// Index of the first `\n`, or the length.
pub open spec fn line_end(s: Seq<char>) -> int
    decreases s.len(),
{
    if s.len() == 0 {
        0
    } else if s[0] == '\n' {
        0
    } else {
        1 + line_end(s.drop_first())
    }
}

/// The first line of a text (`str::lines().next()`): none for empty text;
/// a `\r` before the line's `\n` is not part of the line.
pub open spec fn first_line(s: Seq<char>) -> Option<Seq<char>> {
    if s.len() == 0 {
        None
    } else {
        let k = line_end(s);
        let line = s.take(k);
        if k < s.len() && line.len() > 0 && line.last() == '\r' {
            Some(line.drop_last())
        } else {
            Some(line)
        }
    }
}

/// The version that a run reports: its first line, trimmed, when non-empty.
/// Errors carry whether the program could not be started, and a message.
pub open spec fn spec_version_result(command: Seq<char>, run: ToolRunView) -> Result<
    Seq<char>,
    (bool, Seq<char>),
> {
    match run {
        ToolRunView::SpawnFailed { error } => Err(
            (true, "failed to run "@ + command + " -version: "@ + error),
        ),
        ToolRunView::Exited { success, status, stdout } => if !success {
            Err((false, command + " -version exited with status "@ + status))
        } else if !vstd::utf8::valid_utf8(stdout) {
            Err(
                (
                    false,
                    command + " version output is not UTF-8: "@ + utf8_error_text(stdout),
                ),
            )
        } else {
            match first_line(vstd::utf8::decode_utf8(stdout)) {
                Some(line) if trim(line).len() > 0 => Ok(trim(line)),
                _ => Err((false, command + " version output was empty"@)),
            }
        },
    }
}

pub open spec fn version_error_view(e: VersionError) -> (bool, Seq<char>) {
    (e.spawn_failed, e.message@)
}

fn first_line_exec(s: &Vec<char>) -> (r: Option<Vec<char>>)
    ensures
        match r {
            Some(l) => first_line(s@) == Some(l@),
            None => first_line(s@) is None,
        },
{
    if s.len() == 0 {
        return None;
    }
    let mut k: usize = 0;
    proof {
        assert(s@.skip(0) =~= s@);
    }
    while k < s.len() && s[k] != '\n'
        invariant
            k <= s.len(),
            line_end(s@) == k + line_end(s@.skip(k as int)),
        decreases s.len() - k,
    {
        proof {
            assert(s@.skip(k as int).drop_first() =~= s@.skip(k + 1));
        }
        k = k + 1;
    }
    proof {
        if k < s.len() {
            assert(s@.skip(k as int)[0] == s@[k as int]);
        }
    }
    let mut line: Vec<char> = Vec::new();
    let mut i: usize = 0;
    while i < k
        invariant
            k <= s.len(),
            i <= k,
            line@ == s@.subrange(0, i as int),
        decreases k - i,
    {
        line.push(s[i]);
        i = i + 1;
        assert(line@ =~= s@.subrange(0, i as int));
    }
    if k < s.len() && line.len() > 0 && line[line.len() - 1] == '\r' {
        line.pop();
        proof {
            assert(line@ =~= s@.take(k as int).drop_last());
        }
    } else {
        proof {
            assert(line@ =~= s@.take(k as int));
        }
    }
    Some(line)
}

/// Reads the version from a run of `<command> -version`.
pub fn read_version(command: &str, run: ToolRun) -> (r: Result<String, VersionError>)
    ensures
        match r {
            Ok(v) => spec_version_result(command@, run@) == Ok::<Seq<char>, (bool, Seq<char>)>(
                v@,
            ),
            Err(e) => spec_version_result(command@, run@) == Err::<Seq<char>, (bool, Seq<char>)>(
                version_error_view(e),
            ),
        },
{
    match run {
        ToolRun::SpawnFailed { error } => {
            let mut m = string_of("failed to run ");
            append_str(&mut m, command);
            append_str(&mut m, " -version: ");
            append_str(&mut m, error.as_str());
            Err(VersionError { spawn_failed: true, message: m })
        },
        ToolRun::Exited { success, status, stdout } => {
            if !success {
                let mut m = string_of(command);
                append_str(&mut m, " -version exited with status ");
                append_str(&mut m, status.as_str());
                return Err(VersionError { spawn_failed: false, message: m });
            }
            let ghost out = stdout@;
            let text = match decode_output(stdout) {
                Ok(t) => t,
                Err(detail) => {
                    let mut m = string_of(command);
                    append_str(&mut m, " version output is not UTF-8: ");
                    append_str(&mut m, detail.as_str());
                    return Err(VersionError { spawn_failed: false, message: m });
                },
            };
            let chars = chars_of(text.as_str());
            match first_line_exec(&chars) {
                Some(line) => {
                    let trimmed = trim_chars(&line);
                    if trimmed.len() > 0 {
                        return Ok(string_from_chars(&trimmed));
                    }
                },
                None => {},
            }
            let mut m = string_of(command);
            append_str(&mut m, " version output was empty");
            Err(VersionError { spawn_failed: false, message: m })
        },
    }
}

/// The probe's view of a version reading: the program counts as found
/// unless it could not be started.
pub fn probe_version(result: Result<String, VersionError>) -> (p: VersionProbe)
    ensures
        match result {
            Ok(v) => p.executable_found && (p.version matches Ok(pv) && pv@ == v@),
            Err(e) => p.executable_found == !e.spawn_failed && (p.version matches Err(pe) && pe@
                == e.message@),
        },
{
    match result {
        Ok(version) => VersionProbe { executable_found: true, version: Ok(version) },
        Err(error) => VersionProbe {
            executable_found: !error.spawn_failed,
            version: Err(error.message),
        },
    }
}

/// The message for a tool that cannot be used, with installation hints for
/// the package that provides both tools.
pub open spec fn not_found_message(tool: Seq<char>) -> Seq<char> {
    tool
        + " not found.\n\nInstall it with:\n  Arch:   sudo pacman -S ffmpeg\n  Ubuntu: sudo apt install ffmpeg\n  macOS:  brew install ffmpeg"@
}

/// The message shown when `tool` is missing.
pub fn missing_tool_message(tool: &str) -> (r: String)
    ensures
        r@ == not_found_message(tool@),
{
    let mut m = string_of(tool);
    append_str(
        &mut m,
        " not found.\n\nInstall it with:\n  Arch:   sudo pacman -S ffmpeg\n  Ubuntu: sudo apt install ffmpeg\n  macOS:  brew install ffmpeg",
    );
    m
}

/// The converter is available when its version could be read; otherwise
/// the error explains how to install it.
pub fn check_availability(version: &Result<String, VersionError>) -> (r: Result<(), String>)
    ensures
        r is Ok <==> version is Ok,
        r matches Err(m) ==> m@ == not_found_message("ffmpeg"@),
{
    match version {
        Ok(_) => Ok(()),
        Err(_) => Err(missing_tool_message("ffmpeg")),
    }
}

// ---------------------------------------------------------------------------
// When the converter is needed
// ---------------------------------------------------------------------------
/// Whether the output of job `i` was found on disk (jobs without an
/// observation count as missing).
pub open spec fn observed_existing(outputs_exist: Seq<bool>, i: int) -> bool {
    i < outputs_exist.len() && outputs_exist[i]
}

/// The converter must be present unless this is a dry run or every output
/// exists already.
pub fn is_needed(config: &Config, jobs: &Vec<ConversionJob>, outputs_exist: &Vec<bool>) -> (r: bool)
    ensures
        r == (!config.dry_run && exists|i: int|
            0 <= i < jobs@.len() && !#[trigger] observed_existing(outputs_exist@, i)),
{
    if config.dry_run {
        return false;
    }
    let mut i: usize = 0;
    while i < jobs.len()
        invariant
            !config.dry_run,
            i <= jobs.len(),
            forall|k: int| 0 <= k < i ==> #[trigger] observed_existing(outputs_exist@, k),
        decreases jobs.len() - i,
    {
        if !(i < outputs_exist.len() && outputs_exist[i]) {
            assert(!observed_existing(outputs_exist@, i as int));
            assert(exists|k: int|
                0 <= k < jobs@.len() && !#[trigger] observed_existing(outputs_exist@, k));
            return true;
        }
        i = i + 1;
    }
    false
}

/// The prober must be present when some job that will run writes PCM
/// (AIFF or WAV).
pub fn probe_is_needed(config: &Config, jobs: &Vec<ConversionJob>, outputs_exist: &Vec<bool>) -> (r:
    bool)
    ensures
        r == (!config.dry_run && exists|i: int|
            0 <= i < jobs@.len() && !#[trigger] observed_existing(outputs_exist@, i) && (
            jobs@[i].target_format == AudioFormat::Aiff || jobs@[i].target_format
                == AudioFormat::Wav)),
{
    if config.dry_run {
        return false;
    }
    let mut i: usize = 0;
    while i < jobs.len()
        invariant
            !config.dry_run,
            i <= jobs.len(),
            forall|k: int|
                0 <= k < i ==> #[trigger] observed_existing(outputs_exist@, k) || !(
                jobs@[k].target_format == AudioFormat::Aiff || jobs@[k].target_format
                    == AudioFormat::Wav),
        decreases jobs.len() - i,
    {
        let missing = !(i < outputs_exist.len() && outputs_exist[i]);
        let pcm = match jobs[i].target_format {
            AudioFormat::Aiff | AudioFormat::Wav => true,
            AudioFormat::Flac => false,
        };
        if missing && pcm {
            assert(!observed_existing(outputs_exist@, i as int));
            assert(exists|k: int|
                0 <= k < jobs@.len() && !#[trigger] observed_existing(outputs_exist@, k) && (
                jobs@[k].target_format == AudioFormat::Aiff || jobs@[k].target_format
                    == AudioFormat::Wav));
            return true;
        }
        i = i + 1;
    }
    false
}

// ---------------------------------------------------------------------------
// Probe output
// ---------------------------------------------------------------------------
/// What the prober reported about the first audio stream.
#[derive(Debug, Clone, PartialEq, Eq)]
pub struct AudioSample {
    pub sample_fmt: Option<String>,
    pub bits: Option<u16>,
}

pub open spec fn is_digit(c: char) -> bool {
    '0' <= c <= '9'
}

pub open spec fn digits_value(d: Seq<char>) -> nat
    decreases d.len(),
{
    if d.len() == 0 {
        0
    } else {
        digits_value(d.drop_last()) * 10 + ((d.last() as u32) - 48) as nat
    }
}

/// The text after an optional leading `+`.
pub open spec fn unsigned_digits(s: Seq<char>) -> Seq<char> {
    if s.len() > 0 && s[0] == '+' {
        s.drop_first()
    } else {
        s
    }
}

pub open spec fn all_digits(d: Seq<char>) -> bool {
    forall|i: int| 0 <= i < d.len() ==> is_digit(#[trigger] d[i])
}

/// `u16::from_str`: an optional `+`, then one or more decimal digits whose
/// value fits in 16 bits.
pub open spec fn parse_u16(s: Seq<char>) -> Option<u16> {
    let d = unsigned_digits(s);
    if d.len() > 0 && all_digits(d) && digits_value(d) <= 65535 {
        Some(digits_value(d) as u16)
    } else {
        None
    }
}

/// A bit depth: the trimmed value as a positive 16-bit number.
pub open spec fn spec_parse_bits(value: Seq<char>) -> Option<u16> {
    match parse_u16(trim(value)) {
        Some(b) => if b == 0 {
            None
        } else {
            Some(b)
        },
        None => None,
    }
}

proof fn lemma_digits_value_grows(d: Seq<char>, k: int)
    requires
        0 <= k <= d.len(),
        forall|i: int| 0 <= i < d.len() ==> is_digit(#[trigger] d[i]),
    ensures
        digits_value(d.take(k)) <= digits_value(d),
    decreases d.len() - k,
{
    if k < d.len() {
        lemma_digits_value_grows(d, k + 1);
        assert(d.take(k + 1).drop_last() =~= d.take(k));
    } else {
        assert(d.take(k) =~= d);
    }
}

fn parse_u16_chars(s: &Vec<char>) -> (r: Option<u16>)
    ensures
        r == parse_u16(s@),
{
    let start: usize = if s.len() > 0 && s[0] == '+' {
        1
    } else {
        0
    };
    let ghost d = unsigned_digits(s@);
    proof {
        assert(d =~= s@.skip(start as int));
    }
    if start >= s.len() {
        return None;
    }
    let mut value: u32 = 0;
    let mut i: usize = start;
    while i < s.len()
        invariant
            start <= i <= s.len(),
            d == s@.skip(start as int),
            d == unsigned_digits(s@),
            forall|k: int| 0 <= k < i - start ==> is_digit(#[trigger] d[k]),
            value as nat == digits_value(d.take(i - start)),
            value <= 65535,
        decreases s.len() - i,
    {
        let c = s[i];
        assert(d[i - start] == s@[i as int]);
        if !('0' <= c && c <= '9') {
            proof {
                assert(!is_digit(d[i - start]));
                assert(0 <= i - start < d.len());
                assert(!all_digits(d));
                assert(parse_u16(s@) is None);
            }
            return None;
        }
        let digit: u32 = (c as u32) - 48;
        proof {
            assert(d.take(i - start + 1).drop_last() =~= d.take(i - start));
            assert(d.take(i - start + 1).last() == c);
            assert(digits_value(d.take(i - start + 1)) == digits_value(d.take(i - start)) * 10
                + digit);
        }
        value = value * 10 + digit;
        if value > 65535 {
            proof {
                assert(value as nat == digits_value(d.take(i - start + 1)));
                if all_digits(d) {
                    lemma_digits_value_grows(d, i - start + 1);
                    assert(digits_value(d) > 65535);
                }
                assert(parse_u16(s@) is None);
            }
            return None;
        }
        i = i + 1;
    }
    proof {
        assert(d.take(i - start) =~= d);
    }
    Some(value as u16)
}

/// Reads a bit depth; zero and values that are not numbers mean "unknown".
pub fn parse_bits(value: &str) -> (r: Option<u16>)
    ensures
        r == spec_parse_bits(value@),
{
    let chars = chars_of(value);
    parse_bits_chars(&chars)
}

fn parse_bits_chars(value: &Vec<char>) -> (r: Option<u16>)
    ensures
        r == spec_parse_bits(value@),
{
    let trimmed = trim_chars(value);
    match parse_u16_chars(&trimmed) {
        Some(b) => if b == 0 {
            None
        } else {
            Some(b)
        },
        None => None,
    }
}

/// The pieces of a text between `\n`s (always at least one).
pub open spec fn text_pieces(s: Seq<char>) -> Seq<Seq<char>>
    decreases s.len(),
{
    if s.len() == 0 {
        seq![Seq::<char>::empty()]
    } else {
        let prev = text_pieces(s.drop_last());
        if s.last() == '\n' {
            prev.push(Seq::<char>::empty())
        } else {
            prev.update(prev.len() - 1, prev.last().push(s.last()))
        }
    }
}

/// A line as `str::lines` gives it: a `\r` just before the line's `\n` is
/// dropped.
pub open spec fn line_of_piece(piece: Seq<char>, ended: bool) -> Seq<char> {
    if ended && piece.len() > 0 && piece.last() == '\r' {
        piece.drop_last()
    } else {
        piece
    }
}

/// Index of the first `=`, or -1.
pub open spec fn eq_position(s: Seq<char>) -> int
    decreases s.len(),
{
    if s.len() == 0 {
        -1
    } else if eq_position(s.drop_last()) >= 0 {
        eq_position(s.drop_last())
    } else if s.last() == '=' {
        s.len() - 1
    } else {
        -1
    }
}

/// The state read so far: sample format, raw bit depth, bit depth.
pub struct SampleState {
    pub sample_fmt: Option<Seq<char>>,
    pub raw_bits: Option<u16>,
    pub sample_bits: Option<u16>,
}

/// One line `key=value` of probe output; later lines win. An empty or
/// `N/A` sample format is ignored; unparsable bit depths reset to unknown.
pub open spec fn apply_line(st: SampleState, line: Seq<char>) -> SampleState {
    let p = eq_position(line);
    if p < 0 {
        st
    } else {
        let key = trim(line.take(p));
        let value = trim(line.skip(p + 1));
        if key == "sample_fmt"@ {
            if value.len() > 0 && value != "N/A"@ {
                SampleState { sample_fmt: Some(value), ..st }
            } else {
                st
            }
        } else if key == "bits_per_raw_sample"@ {
            SampleState { raw_bits: spec_parse_bits(value), ..st }
        } else if key == "bits_per_sample"@ {
            SampleState { sample_bits: spec_parse_bits(value), ..st }
        } else {
            st
        }
    }
}

/// Applies the lines of the pieces; every piece but the last ended with `\n`.
pub open spec fn apply_pieces(st: SampleState, pieces: Seq<Seq<char>>) -> SampleState
    decreases pieces.len(),
{
    if pieces.len() == 0 {
        st
    } else {
        apply_line(apply_pieces(st, pieces.drop_last()), line_of_piece(pieces.last(), true))
    }
}

pub open spec fn empty_state() -> SampleState {
    SampleState { sample_fmt: None, raw_bits: None, sample_bits: None }
}

/// The state after reading all lines of `text`; a final piece without `\n`
/// is a line when it is not empty.
pub open spec fn read_sample_state(text: Seq<char>) -> SampleState {
    let pieces = text_pieces(text);
    let done = apply_pieces(empty_state(), pieces.drop_last());
    if pieces.last().len() > 0 {
        apply_line(done, line_of_piece(pieces.last(), false))
    } else {
        done
    }
}

pub open spec fn opt_string_view(o: Option<String>) -> Option<Seq<char>> {
    match o {
        Some(s) => Some(s@),
        None => None,
    }
}

/// The sample read from probe output; the raw bit depth wins over the
/// sample bit depth.
pub open spec fn spec_parse_audio_sample(text: Seq<char>) -> (Option<Seq<char>>, Option<u16>) {
    let st = read_sample_state(text);
    (
        st.sample_fmt,
        match st.raw_bits {
            Some(b) => Some(b),
            None => st.sample_bits,
        },
    )
}

proof fn lemma_text_pieces_nonempty(s: Seq<char>)
    ensures
        text_pieces(s).len() >= 1,
    decreases s.len(),
{
    if s.len() > 0 {
        lemma_text_pieces_nonempty(s.drop_last());
    }
}

proof fn lemma_eq_position_prefix(s: Seq<char>, k: int)
    requires
        0 <= k <= s.len(),
        eq_position(s.take(k)) >= 0,
    ensures
        eq_position(s) == eq_position(s.take(k)),
    decreases s.len() - k,
{
    if k < s.len() {
        assert(s.take(k + 1).drop_last() =~= s.take(k));
        lemma_eq_position_prefix(s, k + 1);
    } else {
        assert(s.take(k) =~= s);
    }
}

/// A text ends at a line boundary: it is empty or its last character is `\n`.
pub open spec fn at_line_start(t: Seq<char>) -> bool {
    t.len() == 0 || t.last() == '\n'
}

proof fn lemma_text_pieces_boundary(t: Seq<char>)
    requires
        at_line_start(t),
    ensures
        text_pieces(t).len() >= 1,
        text_pieces(t).last() == Seq::<char>::empty(),
{
    lemma_text_pieces_nonempty(t);
    if t.len() > 0 {
        lemma_text_pieces_nonempty(t.drop_last());
    }
}

proof fn lemma_text_pieces_append(t: Seq<char>, line: Seq<char>)
    requires
        !line.contains('\n'),
    ensures
        text_pieces(t + line) == text_pieces(t).update(
            text_pieces(t).len() - 1,
            text_pieces(t).last() + line,
        ),
    decreases line.len(),
{
    lemma_text_pieces_nonempty(t);
    let p = text_pieces(t);
    if line.len() == 0 {
        assert(t + line =~= t);
        assert(p.last() + line =~= p.last());
        assert(p.update(p.len() - 1, p.last()) =~= p);
    } else {
        let l2 = line.drop_last();
        if l2.contains('\n') {
            let k = choose|k: int| 0 <= k < l2.len() && l2[k] == '\n';
            assert(line[k] == '\n');
        }
        lemma_text_pieces_append(t, l2);
        assert((t + line).drop_last() =~= t + l2);
        assert((t + line).last() == line[line.len() - 1]);
        let q = text_pieces(t + l2);
        assert(q.last() == p.last() + l2);
        assert((p.last() + l2).push(line.last()) =~= p.last() + line);
        assert(q.update(q.len() - 1, q.last().push(line.last())) =~= p.update(
            p.len() - 1,
            p.last() + line,
        ));
    }
}

/// Reading one more line after a line boundary applies that line to what
/// was read before.
proof fn lemma_read_line(t: Seq<char>, line: Seq<char>)
    requires
        at_line_start(t),
        !line.contains('\n'),
    ensures
        read_sample_state(t + line + seq!['\n']) == apply_line(
            read_sample_state(t),
            line_of_piece(line, true),
        ),
{
    lemma_text_pieces_boundary(t);
    lemma_text_pieces_append(t, line);
    let p = text_pieces(t);
    let u = t + line + seq!['\n'];
    assert(u.drop_last() =~= t + line);
    assert(u.last() == '\n');
    let pieces = text_pieces(u);
    let q = p.update(p.len() - 1, p.last() + line);
    assert(pieces == q.push(Seq::<char>::empty()));
    assert(pieces.drop_last() =~= q);
    assert(p.last() + line =~= line);
    assert(q.drop_last() =~= p.drop_last());
    assert(q.last() == line);
}

proof fn lemma_no_eq(s: Seq<char>)
    requires
        !s.contains('='),
    ensures
        eq_position(s) == -1,
    decreases s.len(),
{
    if s.len() > 0 {
        if s.drop_last().contains('=') {
            let k = choose|k: int| 0 <= k < s.drop_last().len() && s.drop_last()[k] == '=';
            assert(s[k] == '=');
        }
        lemma_no_eq(s.drop_last());
        assert(s.last() == s[s.len() - 1]);
    }
}

/// A line `key=value` with a key of plain characters, where the value holds
/// no `\r`.
proof fn lemma_key_line(key: Seq<char>, value: Seq<char>)
    requires
        key.len() > 0,
        !key.contains('='),
        !crate::text::is_space(key[0]),
        !crate::text::is_space(key[key.len() - 1]),
        !value.contains('\r'),
    ensures
        ({
            let line = key + seq!['='] + value;
            &&& line_of_piece(line, true) == line
            &&& eq_position(line) == key.len()
            &&& trim(line.take(eq_position(line))) == key
            &&& line.skip(eq_position(line) + 1) == value
        }),
{
    let line = key + seq!['='] + value;
    let head = key + seq!['='];
    lemma_no_eq(key);
    assert(head.drop_last() =~= key);
    assert(eq_position(head) == key.len());
    assert(line.take(key.len() + 1int) =~= head);
    lemma_eq_position_prefix(line, key.len() + 1int);
    assert(line.take(key.len() as int) =~= key);
    crate::text::lemma_trim_bounds(key, 0, key.len() as int);
    assert(key.subrange(0, key.len() as int) =~= key);
    assert(line.skip(key.len() + 1int) =~= value);
    if value.len() > 0 {
        assert(line.last() == value[value.len() - 1]);
    } else {
        assert(line.last() == '=');
    }
}

/// The bit depth read from probe output comes from the last
/// `bits_per_raw_sample` line when that line's value parses, and otherwise
/// from the `bits_per_sample` line: a `bits_per_raw_sample` line that does
/// not parse never hides the `bits_per_sample` depth, whichever comes first,
/// and neither line changes the sample format.
pub proof fn law_raw_bit_depth_line_keeps_sample_bit_depth(
    t: Seq<char>,
    v: Seq<char>,
    w: Seq<char>,
)
    requires
        at_line_start(t),
        !v.contains('\n'),
        !v.contains('\r'),
        !w.contains('\n'),
        !w.contains('\r'),
    ensures
        ({
            let raw = "bits_per_raw_sample"@ + seq!['='] + v + seq!['\n'];
            let smp = "bits_per_sample"@ + seq!['='] + w + seq!['\n'];
            &&& spec_parse_bits(v) is Some ==> spec_parse_audio_sample(t + raw).1
                == spec_parse_bits(v)
            &&& spec_parse_bits(v) is None ==> spec_parse_audio_sample(t + smp + raw).1
                == spec_parse_bits(w)
            &&& spec_parse_bits(v) is None ==> spec_parse_audio_sample(t + raw + smp).1
                == spec_parse_bits(w)
            &&& spec_parse_audio_sample(t + raw).0 == spec_parse_audio_sample(t).0
            &&& spec_parse_audio_sample(t + smp).0 == spec_parse_audio_sample(t).0
        }),
{
    reveal_strlit("bits_per_raw_sample");
    reveal_strlit("bits_per_sample");
    reveal_strlit("sample_fmt");
    let rk = "bits_per_raw_sample"@;
    let sk = "bits_per_sample"@;
    assert(rk.len() == 19 && sk.len() == 15 && "sample_fmt"@.len() == 10);
    assert(!rk.contains('=')) by {
        if rk.contains('=') {
            let k = choose|k: int| 0 <= k < rk.len() && rk[k] == '=';
        }
    }
    assert(!sk.contains('=')) by {
        if sk.contains('=') {
            let k = choose|k: int| 0 <= k < sk.len() && sk[k] == '=';
        }
    }
    let rline = rk + seq!['='] + v;
    let sline = sk + seq!['='] + w;
    lemma_key_line(rk, v);
    lemma_key_line(sk, w);
    assert(!rline.contains('\n')) by {
        if rline.contains('\n') {
            let k = choose|k: int| 0 <= k < rline.len() && rline[k] == '\n';
            if k > 19 {
                assert(v[k - 20] == '\n');
            }
        }
    }
    assert(!sline.contains('\n')) by {
        if sline.contains('\n') {
            let k = choose|k: int| 0 <= k < sline.len() && sline[k] == '\n';
            if k > 15 {
                assert(w[k - 16] == '\n');
            }
        }
    }
    crate::text::lemma_trim_idempotent(v);
    crate::text::lemma_trim_idempotent(w);
    assert(rk != sk);
    assert(rk != "sample_fmt"@);
    assert(sk != "sample_fmt"@);
    assert(sk != rk);
    let raw = rline + seq!['\n'];
    let smp = sline + seq!['\n'];
    // each line on its own
    lemma_read_line(t, rline);
    lemma_read_line(t, sline);
    assert(t + raw =~= t + rline + seq!['\n']);
    assert(t + smp =~= t + sline + seq!['\n']);
    // two lines in a row
    let ts = t + smp;
    let tr = t + raw;
    assert(at_line_start(ts) && at_line_start(tr)) by {
        assert(ts.last() == '\n');
        assert(tr.last() == '\n');
    }
    lemma_read_line(ts, rline);
    lemma_read_line(tr, sline);
    assert(t + smp + raw =~= ts + rline + seq!['\n']);
    assert(t + raw + smp =~= tr + sline + seq!['\n']);
}

fn chars_equal_str(v: &Vec<char>, s: &str) -> (r: bool)
    ensures
        r == (v@ == s@),
{
    let n = s.unicode_len();
    if v.len() != n {
        return false;
    }
    let mut i: usize = 0;
    while i < n
        invariant
            n == s@.len(),
            v.len() == n,
            i <= n,
            forall|k: int| 0 <= k < i ==> v@[k] == s@[k],
        decreases n - i,
    {
        if v[i] != s.get_char(i) {
            return false;
        }
        i = i + 1;
    }
    assert(v@ =~= s@);
    true
}

fn slice_chars(v: &Vec<char>, from: usize, to: usize) -> (r: Vec<char>)
    requires
        from <= to <= v.len(),
    ensures
        r@ == v@.subrange(from as int, to as int),
{
    let mut r: Vec<char> = Vec::new();
    let mut i: usize = from;
    while i < to
        invariant
            from <= i <= to <= v.len(),
            r@ == v@.subrange(from as int, i as int),
        decreases to - i,
    {
        r.push(v[i]);
        i = i + 1;
        assert(r@ =~= v@.subrange(from as int, i as int));
    }
    r
}

/// The state held while reading lines.
struct SampleReader {
    sample_fmt: Option<String>,
    raw_bits: Option<u16>,
    sample_bits: Option<u16>,
}

impl SampleReader {
    spec fn state(&self) -> SampleState {
        SampleState {
            sample_fmt: opt_string_view(self.sample_fmt),
            raw_bits: self.raw_bits,
            sample_bits: self.sample_bits,
        }
    }

    fn apply(&mut self, line: &Vec<char>)
        ensures
            final(self).state() == apply_line(old(self).state(), line@),
    {
        let mut p: usize = 0;
        proof {
            assert(line@.take(0) =~= Seq::<char>::empty());
        }
        while p < line.len() && line[p] != '='
            invariant
                p <= line.len(),
                eq_position(line@.take(p as int)) == -1,
            decreases line.len() - p,
        {
            proof {
                assert(line@.take(p + 1).drop_last() =~= line@.take(p as int));
            }
            p = p + 1;
        }
        if p == line.len() {
            proof {
                assert(line@.take(p as int) =~= line@);
            }
            return;
        }
        proof {
            assert(line@.take(p + 1).drop_last() =~= line@.take(p as int));
            assert(eq_position(line@.take(p + 1)) == p);
            lemma_eq_position_prefix(line@, p + 1);
        }
        let key = trim_chars(&slice_chars(line, 0, p));
        let value = trim_chars(&slice_chars(line, p + 1, line.len()));
        proof {
            assert(line@.subrange(0, p as int) =~= line@.take(p as int));
            assert(line@.subrange(p + 1, line@.len() as int) =~= line@.skip(p + 1));
        }
        if chars_equal_str(&key, "sample_fmt") {
            if value.len() > 0 && !chars_equal_str(&value, "N/A") {
                self.sample_fmt = Some(string_from_chars(&value));
            }
        } else if chars_equal_str(&key, "bits_per_raw_sample") {
            self.raw_bits = parse_bits_chars(&value);
        } else if chars_equal_str(&key, "bits_per_sample") {
            self.sample_bits = parse_bits_chars(&value);
        }
    }
}

/// Reads the sample format and bit depth from probe output.
pub fn parse_audio_sample(output: &str) -> (sample: AudioSample)
    ensures
        (opt_string_view(sample.sample_fmt), sample.bits) == spec_parse_audio_sample(output@),
{
    let text = chars_of(output);
    let mut reader = SampleReader { sample_fmt: None, raw_bits: None, sample_bits: None };
    let mut piece: Vec<char> = Vec::new();
    let mut i: usize = 0;
    proof {
        assert(text@.subrange(0, 0) =~= Seq::<char>::empty());
    }
    while i < text.len()
        invariant
            i <= text.len(),
            reader.state() == apply_pieces(
                empty_state(),
                text_pieces(text@.subrange(0, i as int)).drop_last(),
            ),
            piece@ == text_pieces(text@.subrange(0, i as int)).last(),
        decreases text.len() - i,
    {
        let ghost before = text@.subrange(0, i as int);
        let ghost after = text@.subrange(0, i + 1);
        proof {
            assert(after.drop_last() =~= before);
            lemma_text_pieces_nonempty(before);
        }
        let c = text[i];
        if c == '\n' {
            let mut line = slice_chars(&piece, 0, piece.len());
            proof {
                assert(line@ =~= piece@);
            }
            if line.len() > 0 && line[line.len() - 1] == '\r' {
                line.pop();
            }
            proof {
                assert(line@ =~= line_of_piece(piece@, true));
            }
            reader.apply(&line);
            proof {
                let sp = text_pieces(before);
                assert(text_pieces(after) == sp.push(Seq::<char>::empty()));
                assert(text_pieces(after).drop_last() =~= sp);
                assert(sp.drop_last().push(sp.last()) =~= sp);
                assert(sp.last() == piece@);
            }
            piece = Vec::new();
            proof {
                assert(text_pieces(after).last() =~= Seq::<char>::empty());
            }
        } else {
            piece.push(c);
            proof {
                let sp = text_pieces(before);
                assert(text_pieces(after) == sp.update(sp.len() - 1, sp.last().push(c)));
                assert(text_pieces(after).drop_last() =~= sp.drop_last());
                assert(piece@ =~= text_pieces(after).last());
            }
        }
        i = i + 1;
    }
    proof {
        assert(text@.subrange(0, text.len() as int) =~= text@);
    }
    if piece.len() > 0 {
        reader.apply(&piece);
    }
    let bits = match reader.raw_bits {
        Some(b) => Some(b),
        None => reader.sample_bits,
    };
    AudioSample { sample_fmt: reader.sample_fmt, bits }
}

// ---------------------------------------------------------------------------
// PCM codec selection
// ---------------------------------------------------------------------------
#[derive(Debug, Clone, Copy, PartialEq, Eq, Structural)]
pub enum CodecError {
    /// The prober reported no usable bit depth.
    NoBitDepth,
    /// The bit depth is outside 1..=32.
    UnsupportedDepth(u16),
    /// PCM codecs exist only for AIFF and WAV.
    NotPcmTarget,
}

/// The PCM codec for a target format: float samples keep their float
/// width; integer samples are rounded up to 8, 16, 24 or 32 bits, never
/// down. WAV is little-endian (8-bit WAV is unsigned), AIFF big-endian.
pub open spec fn spec_pcm_codec(target: AudioFormat, sample_fmt: Option<Seq<char>>, bits: Option<
    u16,
>) -> Result<Seq<char>, CodecError> {
    let float32 = sample_fmt matches Some(f) && (f == "flt"@ || f == "fltp"@);
    let float64 = sample_fmt matches Some(f) && (f == "dbl"@ || f == "dblp"@);
    if float32 && target == AudioFormat::Wav {
        Ok("pcm_f32le"@)
    } else if float32 && target == AudioFormat::Aiff {
        Ok("pcm_f32be"@)
    } else if float64 && target == AudioFormat::Wav {
        Ok("pcm_f64le"@)
    } else if float64 && target == AudioFormat::Aiff {
        Ok("pcm_f64be"@)
    } else {
        match bits {
            None => Err(CodecError::NoBitDepth),
            Some(b) => if b < 1 || b > 32 {
                Err(CodecError::UnsupportedDepth(b))
            } else {
                let bucket: int = if b <= 8 {
                    8
                } else if b <= 16 {
                    16
                } else if b <= 24 {
                    24
                } else {
                    32
                };
                match target {
                    AudioFormat::Wav => Ok(
                        if bucket == 8 {
                            "pcm_u8"@
                        } else if bucket == 16 {
                            "pcm_s16le"@
                        } else if bucket == 24 {
                            "pcm_s24le"@
                        } else {
                            "pcm_s32le"@
                        },
                    ),
                    AudioFormat::Aiff => Ok(
                        if bucket == 8 {
                            "pcm_s8"@
                        } else if bucket == 16 {
                            "pcm_s16be"@
                        } else if bucket == 24 {
                            "pcm_s24be"@
                        } else {
                            "pcm_s32be"@
                        },
                    ),
                    AudioFormat::Flac => Err(CodecError::NotPcmTarget),
                }
            },
        }
    }
}

fn fmt_is(sample: &AudioSample, a: &str, b: &str) -> (r: bool)
    ensures
        r == (sample.sample_fmt matches Some(f) && (f@ == a@ || f@ == b@)),
{
    match &sample.sample_fmt {
        Some(f) => crate::text::str_equal(f.as_str(), a) || crate::text::str_equal(f.as_str(), b),
        None => false,
    }
}

/// Chooses the PCM codec for a job's target from the probed sample.
pub fn pcm_codec_for(target_format: AudioFormat, sample: &AudioSample) -> (r: Result<
    &'static str,
    CodecError,
>)
    ensures
        match r {
            Ok(c) => spec_pcm_codec(target_format, opt_string_view(sample.sample_fmt), sample.bits)
                == Ok::<Seq<char>, CodecError>(c@),
            Err(e) => spec_pcm_codec(
                target_format,
                opt_string_view(sample.sample_fmt),
                sample.bits,
            ) == Err::<Seq<char>, CodecError>(e),
        },
{
    let float32 = fmt_is(sample, "flt", "fltp");
    let float64 = fmt_is(sample, "dbl", "dblp");
    if float32 && target_format == AudioFormat::Wav {
        return Ok("pcm_f32le");
    }
    if float32 && target_format == AudioFormat::Aiff {
        return Ok("pcm_f32be");
    }
    if float64 && target_format == AudioFormat::Wav {
        return Ok("pcm_f64le");
    }
    if float64 && target_format == AudioFormat::Aiff {
        return Ok("pcm_f64be");
    }
    let bits = match sample.bits {
        Some(b) => b,
        None => {
            return Err(CodecError::NoBitDepth);
        },
    };
    if bits < 1 || bits > 32 {
        return Err(CodecError::UnsupportedDepth(bits));
    }
    let bucket: u16 = if bits <= 8 {
        8
    } else if bits <= 16 {
        16
    } else if bits <= 24 {
        24
    } else {
        32
    };
    match target_format {
        AudioFormat::Wav => Ok(
            if bucket == 8 {
                "pcm_u8"
            } else if bucket == 16 {
                "pcm_s16le"
            } else if bucket == 24 {
                "pcm_s24le"
            } else {
                "pcm_s32le"
            },
        ),
        AudioFormat::Aiff => Ok(
            if bucket == 8 {
                "pcm_s8"
            } else if bucket == 16 {
                "pcm_s16be"
            } else if bucket == 24 {
                "pcm_s24be"
            } else {
                "pcm_s32be"
            },
        ),
        AudioFormat::Flac => Err(CodecError::NotPcmTarget),
    }
}

impl CodecError {
    pub fn message(&self) -> (r: String)
        ensures
            r@ == codec_message(*self),
    {
        match self {
            CodecError::NoBitDepth => string_of("ffprobe did not report a usable bit depth"),
            CodecError::UnsupportedDepth(b) => {
                let mut m = string_of("unsupported PCM bit depth: ");
                append_str(&mut m, decimal_string(*b as usize).as_str());
                m
            },
            CodecError::NotPcmTarget => string_of(
                "PCM codec selection is only supported for WAV and AIFF",
            ),
        }
    }
}

pub open spec fn codec_message(e: CodecError) -> Seq<char> {
    match e {
        CodecError::NoBitDepth => "ffprobe did not report a usable bit depth"@,
        CodecError::UnsupportedDepth(b) => "unsupported PCM bit depth: "@ + decimal(b as nat),
        CodecError::NotPcmTarget => "PCM codec selection is only supported for WAV and AIFF"@,
    }
}

// ---------------------------------------------------------------------------
// Reading the runs of a conversion
// ---------------------------------------------------------------------------

/// What a probe run of `input` gives: the sample it reports, or why it
/// cannot be read (the message names the input).
pub open spec fn spec_probe_result(input: PathView, run: ToolRunView) -> Result<
    (Option<Seq<char>>, Option<u16>),
    Seq<char>,
> {
    match run {
        ToolRunView::SpawnFailed { error } => Err(
            "failed to spawn ffprobe for "@ + shown(input) + ": "@ + error,
        ),
        ToolRunView::Exited { success, status, stdout } => if !success {
            Err("ffprobe exited with status "@ + status + " for input "@ + shown(input))
        } else if !vstd::utf8::valid_utf8(stdout) {
            Err(
                "ffprobe output is not UTF-8 for "@ + shown(input) + ": "@ + utf8_error_text(
                    stdout,
                ),
            )
        } else {
            Ok(spec_parse_audio_sample(vstd::utf8::decode_utf8(stdout)))
        },
    }
}

/// Reads the sample reported by a run of the prober on `input`.
pub fn probe_result(input: &FsPath, run: ToolRun) -> (r: Result<AudioSample, String>)
    ensures
        match r {
            Ok(sample) => spec_probe_result(input@, run@) == Ok::<
                (Option<Seq<char>>, Option<u16>),
                Seq<char>,
            >((opt_string_view(sample.sample_fmt), sample.bits)),
            Err(m) => spec_probe_result(input@, run@) == Err::<
                (Option<Seq<char>>, Option<u16>),
                Seq<char>,
            >(m@),
        },
{
    match run {
        ToolRun::SpawnFailed { error } => {
            let mut m = string_of("failed to spawn ffprobe for ");
            append_str(&mut m, input.display().as_str());
            append_str(&mut m, ": ");
            append_str(&mut m, error.as_str());
            Err(m)
        },
        ToolRun::Exited { success, status, stdout } => {
            if !success {
                let mut m = string_of("ffprobe exited with status ");
                append_str(&mut m, status.as_str());
                append_str(&mut m, " for input ");
                append_str(&mut m, input.display().as_str());
                return Err(m);
            }
            match decode_output(stdout) {
                Ok(text) => Ok(parse_audio_sample(text.as_str())),
                Err(detail) => {
                    let mut m = string_of("ffprobe output is not UTF-8 for ");
                    append_str(&mut m, input.display().as_str());
                    append_str(&mut m, ": ");
                    append_str(&mut m, detail.as_str());
                    Err(m)
                },
            }
        },
    }
}

/// The codec for a job whose target is PCM, from the probed sample; the
/// error names the input.
pub open spec fn spec_job_codec(job: crate::plan::JobView, sample_fmt: Option<Seq<char>>, bits: Option<
    u16,
>) -> Result<Seq<char>, Seq<char>> {
    match spec_pcm_codec(job.target_format, sample_fmt, bits) {
        Ok(c) => Ok(c),
        Err(e) => Err(
            "could not determine PCM bit depth for "@ + shown(job.input) + ": "@ + codec_message(
                e,
            ),
        ),
    }
}

/// Chooses the PCM codec for a job from its probed sample.
pub fn job_codec(job: &ConversionJob, sample: &AudioSample) -> (r: Result<&'static str, String>)
    ensures
        match r {
            Ok(c) => spec_job_codec(job@, opt_string_view(sample.sample_fmt), sample.bits) == Ok::<
                Seq<char>,
                Seq<char>,
            >(c@),
            Err(m) => spec_job_codec(job@, opt_string_view(sample.sample_fmt), sample.bits) == Err::<
                Seq<char>,
                Seq<char>,
            >(m@),
        },
{
    match pcm_codec_for(job.target_format, sample) {
        Ok(c) => Ok(c),
        Err(e) => {
            let mut m = string_of("could not determine PCM bit depth for ");
            append_str(&mut m, job.input.display().as_str());
            append_str(&mut m, ": ");
            append_str(&mut m, e.message().as_str());
            Err(m)
        },
    }
}

/// What a run of the converter on `input` means: success, or a message
/// naming the input.
pub open spec fn spec_converter_result(input: PathView, run: ToolRunView) -> Result<(), Seq<char>> {
    match run {
        ToolRunView::SpawnFailed { error } => Err(
            "failed to spawn ffmpeg for "@ + shown(input) + ": "@ + error,
        ),
        ToolRunView::Exited { success, status, .. } => if success {
            Ok(())
        } else {
            Err("ffmpeg exited with status "@ + status + " for input "@ + shown(input))
        },
    }
}

/// Reads a run of the converter on `input`.
pub fn converter_result(input: &FsPath, run: ToolRun) -> (r: Result<(), String>)
    ensures
        match r {
            Ok(_) => spec_converter_result(input@, run@) is Ok,
            Err(m) => spec_converter_result(input@, run@) == Err::<(), Seq<char>>(m@),
        },
{
    match run {
        ToolRun::SpawnFailed { error } => {
            let mut m = string_of("failed to spawn ffmpeg for ");
            append_str(&mut m, input.display().as_str());
            append_str(&mut m, ": ");
            append_str(&mut m, error.as_str());
            Err(m)
        },
        ToolRun::Exited { success, status, .. } => {
            if success {
                Ok(())
            } else {
                let mut m = string_of("ffmpeg exited with status ");
                append_str(&mut m, status.as_str());
                append_str(&mut m, " for input ");
                append_str(&mut m, input.display().as_str());
                Err(m)
            }
        },
    }
}

// ---------------------------------------------------------------------------
// The conversion command
// ---------------------------------------------------------------------------
/// One argument of a command: text, or a path passed as it is.
#[derive(Debug)]
pub enum CommandArg {
    Text(String),
    Path(FsPath),
}

pub enum CommandArgView {
    Text(Seq<char>),
    Path(PathView),
}

impl View for CommandArg {
    type V = CommandArgView;

    open spec fn view(&self) -> CommandArgView {
        match self {
            CommandArg::Text(s) => CommandArgView::Text(s@),
            CommandArg::Path(p) => CommandArgView::Path(p@),
        }
    }
}

pub open spec fn arg_views(args: Seq<CommandArg>) -> Seq<CommandArgView> {
    args.map_values(|a: CommandArg| a@)
}

pub open spec fn t(s: Seq<char>) -> CommandArgView {
    CommandArgView::Text(s)
}

/// The converter's arguments: read the input, map streams and pick the
/// codec for the target (AIFF and WAV with the chosen PCM codec; WAV keeps
/// only the first audio stream and the metadata; AIFF writes ID3v2 tags),
/// overwrite the temporary output, and report errors only.
pub open spec fn spec_ffmpeg_args(
    input: PathView,
    output: PathView,
    target: AudioFormat,
    codec: Seq<char>,
) -> Seq<CommandArgView> {
    seq![t("-nostdin"@), t("-i"@), CommandArgView::Path(input)] + match target {
        AudioFormat::Aiff => seq![
            t("-map"@),
            t("0"@),
            t("-c:a"@),
            t(codec),
            t("-write_id3v2"@),
            t("1"@),
        ],
        AudioFormat::Flac => seq![t("-map"@), t("0"@), t("-c:a"@), t("flac"@)],
        AudioFormat::Wav => seq![
            t("-map"@),
            t("0:a:0"@),
            t("-map_metadata"@),
            t("0"@),
            t("-c:a"@),
            t(codec),
        ],
    } + seq![t("-y"@), t("-loglevel"@), t("error"@), CommandArgView::Path(output)]
}

fn push_text(args: &mut Vec<CommandArg>, s: &str)
    ensures
        arg_views(final(args)@) == arg_views(old(args)@).push(t(s@)),
{
    let a = CommandArg::Text(string_of(s));
    args.push(a);
    proof {
        assert(arg_views(final(args)@) =~= arg_views(old(args)@).push(t(s@)));
    }
}

fn push_path(args: &mut Vec<CommandArg>, p: &FsPath)
    ensures
        arg_views(final(args)@) == arg_views(old(args)@).push(CommandArgView::Path(p@)),
{
    let a = CommandArg::Path(p.copy());
    args.push(a);
    proof {
        assert(arg_views(final(args)@) =~= arg_views(old(args)@).push(CommandArgView::Path(p@)));
    }
}

/// The arguments for converting `job` into `output`. A PCM target needs
/// its codec.
pub fn ffmpeg_args(job: &ConversionJob, output: &FsPath, pcm_codec: Option<&str>) -> (args: Vec<
    CommandArg,
>)
    requires
        job.target_format != AudioFormat::Flac ==> pcm_codec is Some,
    ensures
        arg_views(args@) == spec_ffmpeg_args(
            job.input@,
            output@,
            job.target_format,
            match pcm_codec {
                Some(c) => c@,
                None => Seq::empty(),
            },
        ),
{
    let mut args: Vec<CommandArg> = Vec::new();
    push_text(&mut args, "-nostdin");
    push_text(&mut args, "-i");
    push_path(&mut args, &job.input);
    match job.target_format {
        AudioFormat::Aiff => {
            let codec = match pcm_codec {
                Some(c) => c,
                None => "",
            };
            push_text(&mut args, "-map");
            push_text(&mut args, "0");
            push_text(&mut args, "-c:a");
            push_text(&mut args, codec);
            push_text(&mut args, "-write_id3v2");
            push_text(&mut args, "1");
        },
        AudioFormat::Flac => {
            push_text(&mut args, "-map");
            push_text(&mut args, "0");
            push_text(&mut args, "-c:a");
            push_text(&mut args, "flac");
        },
        AudioFormat::Wav => {
            let codec = match pcm_codec {
                Some(c) => c,
                None => "",
            };
            push_text(&mut args, "-map");
            push_text(&mut args, "0:a:0");
            push_text(&mut args, "-map_metadata");
            push_text(&mut args, "0");
            push_text(&mut args, "-c:a");
            push_text(&mut args, codec);
        },
    }
    push_text(&mut args, "-y");
    push_text(&mut args, "-loglevel");
    push_text(&mut args, "error");
    push_path(&mut args, output);
    proof {
        let codec = match pcm_codec {
            Some(c) => c@,
            None => Seq::empty(),
        };
        assert(arg_views(args@) =~= spec_ffmpeg_args(
            job.input@,
            output@,
            job.target_format,
            codec,
        ));
    }
    args
}

/// The prober's arguments: report the sample format and bit depths of the
/// first audio stream of `input`, one `key=value` per line, errors only.
pub open spec fn spec_ffprobe_args(input: PathView) -> Seq<CommandArgView> {
    seq![
        t("-v"@),
        t("error"@),
        t("-select_streams"@),
        t("a:0"@),
        t("-show_entries"@),
        t("stream=sample_fmt,bits_per_raw_sample,bits_per_sample"@),
        t("-of"@),
        t("default=noprint_wrappers=1"@),
        CommandArgView::Path(input),
    ]
}

/// The arguments for probing `input`.
pub fn ffprobe_args(input: &FsPath) -> (args: Vec<CommandArg>)
    ensures
        arg_views(args@) == spec_ffprobe_args(input@),
{
    let mut args: Vec<CommandArg> = Vec::new();
    push_text(&mut args, "-v");
    push_text(&mut args, "error");
    push_text(&mut args, "-select_streams");
    push_text(&mut args, "a:0");
    push_text(&mut args, "-show_entries");
    push_text(&mut args, "stream=sample_fmt,bits_per_raw_sample,bits_per_sample");
    push_text(&mut args, "-of");
    push_text(&mut args, "default=noprint_wrappers=1");
    push_path(&mut args, input);
    proof {
        assert(arg_views(args@) =~= spec_ffprobe_args(input@));
    }
    args
}

impl CommandArg {
    /// The argument as text (paths as `Path::display` shows them).
    pub fn text(&self) -> (r: String)
        ensures
            r@ == match self@ {
                CommandArgView::Text(s) => s,
                CommandArgView::Path(p) => crate::path::shown(p),
            },
    {
        match self {
            CommandArg::Text(s) => s.clone(),
            CommandArg::Path(p) => p.display(),
        }
    }
}

} // verus!
