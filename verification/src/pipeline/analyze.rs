//! Reading ffmpeg's diagnostic output: stream metadata, the loudnorm JSON
//! block, and the lines from which the measurement passes take their numbers.
//!
//! Every function here reads text only. Turning a numeric field into a
//! floating-point value is left to the caller.
use vstd::prelude::*;
use crate::paths::{lemma_split_around, lemma_split_whole};
use crate::text::{
    all_digits, decimal, digit_char, digit_value, digits_value, is_digit,
    after_first, after_first_of, after_last_char, after_last_char_of, before_char, before_char_of,
    chars_of, contains, decimal_pad2, decimal_pad2_of, ends_with, extend, finishes_with,
    first_some, flat_map, includes, index_of, index_of_char, last_index_of, last_index_of_char,
    lemma_first_some_at, lemma_first_some_none, lemma_index_of_bound, lemma_last_index_of_bound,
    lines, lines_of, opt_view, owned, parse_number, parse_u32, replace_all, replace_in, same,
    slice, split_char, split_on, string_of, strip_prefixes, strip_prefixes_of, strip_suffixes,
    strip_suffixes_of, string_views, trim, trimmed, views, ws_split, ws_tokens,
};

verus! {

// ── Stream metadata ──────────────────────────────────────────────────────────

/// The sample rate that one comma-separated field of an `Audio:` line states,
/// such as `44100 Hz`.
pub open spec fn rate_of_part(part: Seq<char>) -> Option<u32> {
    let p = trim(part);
    if ends_with(p, "Hz"@) {
        parse_u32(trim(replace_all(p, " Hz"@, Seq::empty())))
    } else {
        None
    }
}

/// `rate_of_part` as a closure.
pub open spec fn rate_of_part_fn() -> spec_fn(Seq<char>) -> Option<u32> {
    |x: Seq<char>| rate_of_part(x)
}

/// The sample rate a stream line states: the first comma-separated part that
/// states one.
pub open spec fn rate_in_line(line: Seq<char>) -> Option<u32> {
    if contains(line, "Audio:"@) {
        first_some(split_char(line, ','), rate_of_part_fn())
    } else {
        None
    }
}

/// `rate_in_line` as a closure.
pub open spec fn rate_in_line_fn() -> spec_fn(Seq<char>) -> Option<u32> {
    |x: Seq<char>| rate_in_line(x)
}

/// The sample rate of the first `Audio:` line that states one.
pub open spec fn sample_rate_in(text: Seq<char>) -> Option<u32> {
    first_some(lines(text), rate_in_line_fn())
}

/// The channel count that one field of an `Audio:` line names.
pub open spec fn channels_of_part(part: Seq<char>) -> Option<u32> {
    let p = trim(part);
    if p == "stereo"@ {
        Some(2)
    } else if p == "mono"@ {
        Some(1)
    } else if contains(p, "5.1"@) {
        Some(6)
    } else if contains(p, "7.1"@) {
        Some(8)
    } else if contains(p, "quad"@) {
        Some(4)
    } else {
        None
    }
}

/// `channels_of_part` as a closure.
pub open spec fn channels_of_part_fn() -> spec_fn(Seq<char>) -> Option<u32> {
    |x: Seq<char>| channels_of_part(x)
}

/// The channel count a stream line states: the first part that states one.
pub open spec fn channels_in_line(line: Seq<char>) -> Option<u32> {
    if contains(line, "Audio:"@) {
        first_some(split_char(line, ','), channels_of_part_fn())
    } else {
        None
    }
}

/// `channels_in_line` as a closure.
pub open spec fn channels_in_line_fn() -> spec_fn(Seq<char>) -> Option<u32> {
    |x: Seq<char>| channels_in_line(x)
}

/// The channel count of the first `Audio:` line that names a layout.
pub open spec fn channels_in(text: Seq<char>) -> Option<u32> {
    first_some(lines(text), channels_in_line_fn())
}

/// A sample format token such as `pcm_s24le`, stripped of its `pcm_s` /
/// `pcm_u` prefixes and `le` / `be` suffixes, read as a bit depth of 8, 16,
/// 24 or 32.
pub open spec fn depth_of_token(tok: Seq<char>) -> Option<u32> {
    let t = strip_suffixes(
        strip_suffixes(strip_prefixes(strip_prefixes(tok, "pcm_s"@), "pcm_u"@), "le"@),
        "be"@,
    );
    match parse_u32(t) {
        Some(b) => if b == 8 || b == 16 || b == 24 || b == 32 {
            Some(b)
        } else {
            None
        },
        None => None,
    }
}

/// `depth_of_token` as a closure.
pub open spec fn depth_of_token_fn() -> spec_fn(Seq<char>) -> Option<u32> {
    |x: Seq<char>| depth_of_token(x)
}

/// The bit depth a comma-separated part states: the first of its
/// whitespace-separated tokens that states one.
pub open spec fn depth_of_part(part: Seq<char>) -> Option<u32> {
    first_some(ws_tokens(part), depth_of_token_fn())
}

/// `depth_of_part` as a closure.
pub open spec fn depth_of_part_fn() -> spec_fn(Seq<char>) -> Option<u32> {
    |x: Seq<char>| depth_of_part(x)
}

/// The bit depth a stream line states: the first part that states one.
pub open spec fn depth_in_line(line: Seq<char>) -> Option<u32> {
    if contains(line, "Audio:"@) {
        first_some(split_char(line, ','), depth_of_part_fn())
    } else {
        None
    }
}

/// `depth_in_line` as a closure.
pub open spec fn depth_in_line_fn() -> spec_fn(Seq<char>) -> Option<u32> {
    |x: Seq<char>| depth_in_line(x)
}

/// The bit depth of the first `Audio:` line that has one.
pub open spec fn bit_depth_in(text: Seq<char>) -> Option<u32> {
    first_some(lines(text), depth_in_line_fn())
}

/// The codec name: the first whitespace-separated word of what follows
/// `Audio:` up to the first comma, when there is one.
pub open spec fn codec_in_line(line: Seq<char>) -> Option<Seq<char>> {
    match after_first(line, "Audio:"@) {
        Some(after) => {
            let words = ws_tokens(before_char(after, ','));
            if words.len() > 0 {
                Some(words[0])
            } else {
                None
            }
        },
        None => None,
    }
}

/// `codec_in_line` as a closure.
pub open spec fn codec_in_line_fn() -> spec_fn(Seq<char>) -> Option<Seq<char>> {
    |x: Seq<char>| codec_in_line(x)
}

/// The codec of the first `Audio:` line that names one.
pub open spec fn codec_in(text: Seq<char>) -> Option<Seq<char>> {
    first_some(lines(text), codec_in_line_fn())
}

/// The hours, minutes and seconds fields of a `Duration: HH:MM:SS.ss, ...`
/// line, each trimmed; `None` when the time has fewer than three fields.
pub open spec fn duration_in_line(line: Seq<char>) -> Option<(Seq<char>, Seq<char>, Seq<char>)> {
    match after_first(line, "Duration:"@) {
        Some(after) => {
            let time = trim(before_char(trim(after), ','));
            match index_of(time, ':') {
                Some(i) => {
                    let rest = time.skip(i + 1);
                    match index_of(rest, ':') {
                        Some(j) => Some((trim(time.take(i)), trim(rest.take(j)), trim(rest.skip(j + 1)))),
                        None => None,
                    }
                },
                None => None,
            }
        },
        None => None,
    }
}

/// `duration_in_line` as a closure.
pub open spec fn duration_in_line_fn() -> spec_fn(Seq<char>) -> Option<(Seq<char>, Seq<char>, Seq<char>)> {
    |x: Seq<char>| duration_in_line(x)
}

/// The duration fields of the first `Duration:` line whose time has three fields.
pub open spec fn duration_in(text: Seq<char>) -> Option<(Seq<char>, Seq<char>, Seq<char>)> {
    first_some(lines(text), duration_in_line_fn())
}

// ── Measurement candidates ───────────────────────────────────────────────────

/// For a line that mentions `key`: its last whitespace-separated token, then
/// the trimmed text after its last `=`, as far as they exist.
pub open spec fn astats_line_candidates(line: Seq<char>, key: Seq<char>) -> Seq<Seq<char>> {
    if contains(line, key) {
        let toks = ws_tokens(line);
        let by_token = if toks.len() > 0 {
            seq![toks.last()]
        } else {
            Seq::empty()
        };
        let by_eq = match last_index_of(line, '=') {
            Some(p) => seq![trim(line.skip(p + 1))],
            None => Seq::empty(),
        };
        by_token + by_eq
    } else {
        Seq::empty()
    }
}

/// The candidate values one line holds for `key`, as a closure over lines.
pub open spec fn astats_line_fn(key: Seq<char>) -> spec_fn(Seq<char>) -> Seq<Seq<char>> {
    |l: Seq<char>| astats_line_candidates(l, key)
}

/// The candidate values for `key` in astats output, in line order.
pub open spec fn astats_candidates_in(text: Seq<char>, key: Seq<char>) -> Seq<Seq<char>> {
    flat_map(lines(text), astats_line_fn(key))
}

/// For a line reporting the phase meter: the trimmed text after its last `=`
/// (the whole line, trimmed, when it has none).
pub open spec fn phase_line_candidates(line: Seq<char>) -> Seq<Seq<char>> {
    if contains(line, "aphasemeter.phase"@) || contains(line, "phase="@) {
        seq![trim(after_last_char(line, '='))]
    } else {
        Seq::empty()
    }
}

/// The phase readings one line holds, as a closure over lines.
pub open spec fn phase_line_candidates_fn() -> spec_fn(Seq<char>) -> Seq<Seq<char>> {
    |x: Seq<char>| phase_line_candidates(x)
}

/// The phase readings in aphasemeter output, in line order.
pub open spec fn phase_candidates_in(text: Seq<char>) -> Seq<Seq<char>> {
    flat_map(lines(text), phase_line_candidates_fn())
}

/// For a `mean_volume` line of volumedetect: all its whitespace-separated tokens.
pub open spec fn volume_line_candidates(line: Seq<char>) -> Seq<Seq<char>> {
    if contains(line, "mean_volume"@) {
        ws_tokens(line)
    } else {
        Seq::empty()
    }
}

/// The mean-volume readings one line holds, as a closure over lines.
pub open spec fn volume_line_candidates_fn() -> spec_fn(Seq<char>) -> Seq<Seq<char>> {
    |x: Seq<char>| volume_line_candidates(x)
}

/// The mean-volume readings in volumedetect output, in line order.
pub open spec fn volume_candidates_in(text: Seq<char>) -> Seq<Seq<char>> {
    flat_map(lines(text), volume_line_candidates_fn())
}

// ── Loudnorm JSON ────────────────────────────────────────────────────────────

/// Why no JSON block could be cut out of loudnorm's output.
#[derive(Debug, Clone, Copy, PartialEq, Eq)]
pub enum LoudnormTextError {
    /// There is no `{`.
    NoJson,
    /// There is no `}`.
    NoClosingBrace,
    /// The last `}` comes before the last `{`.
    Malformed,
}

impl LoudnormTextError {
    /// The message the command line reports for this error.
    pub fn message(&self) -> (r: String)
        ensures
            r@ == (match self {
                LoudnormTextError::NoJson => "No JSON found in loudnorm output"@,
                LoudnormTextError::NoClosingBrace => "No closing brace in loudnorm output"@,
                LoudnormTextError::Malformed => "Malformed JSON in loudnorm output"@,
            }),
    {
        match self {
            LoudnormTextError::NoJson => owned("No JSON found in loudnorm output"),
            LoudnormTextError::NoClosingBrace => owned("No closing brace in loudnorm output"),
            LoudnormTextError::Malformed => owned("Malformed JSON in loudnorm output"),
        }
    }
}

/// The text from the last `{` through the last `}`.
pub open spec fn loudnorm_json_span(text: Seq<char>) -> Result<Seq<char>, LoudnormTextError> {
    match last_index_of(text, '{') {
        None => Err(LoudnormTextError::NoJson),
        Some(start) => match last_index_of(text, '}') {
            None => Err(LoudnormTextError::NoClosingBrace),
            Some(end) => if end < start {
                Err(LoudnormTextError::Malformed)
            } else {
                Ok(text.subrange(start, end + 1))
            },
        },
    }
}

/// The fields of loudnorm's first-pass JSON report, as the text it prints.
#[derive(Debug, Clone)]
pub struct LoudnormJson {
    pub input_i: String,
    pub input_tp: String,
    pub input_lra: String,
    pub input_thresh: String,
    pub target_offset: String,
}

// ── Executable parsers ───────────────────────────────────────────────────────

fn audio_marker() -> (r: Vec<char>)
    ensures
        r@ == "Audio:"@,
{
    chars_of("Audio:")
}

fn rate_of_part_exec(part: &Vec<char>) -> (r: Option<u32>)
    ensures
        r == rate_of_part(part@),
{
    let p = trimmed(part);
    let hz = chars_of("Hz");
    if !finishes_with(&p, &hz) {
        return None;
    }
    let pat = chars_of(" Hz");
    proof {
        reveal_strlit(" Hz");
    }
    let empty: Vec<char> = Vec::new();
    assert(empty@ =~= Seq::<char>::empty());
    let replaced = replace_in(&p, &pat, &empty);
    parse_number(&trimmed(&replaced))
}

fn rate_in_line_exec(line: &Vec<char>) -> (r: Option<u32>)
    ensures
        r == rate_in_line(line@),
{
    if !includes(line, &audio_marker()) {
        return None;
    }
    let parts = split_on(line, ',');
    let ghost pv = views(parts@);
    let ghost f = rate_of_part_fn();
    for i in 0..parts.len()
        invariant
            f == rate_of_part_fn(),
            pv == views(parts@),
            pv == split_char(line@, ','),
            contains(line@, "Audio:"@),
            pv.len() == parts.len(),
            forall|k: int| 0 <= k < i ==> (#[trigger] f(pv[k])) is None,
    {
        let r = rate_of_part_exec(&parts[i]);
        assert(pv[i as int] == parts@[i as int]@);
        if r.is_some() {
            proof {
                lemma_first_some_at(pv, f, i as int);
            }
            return r;
        }
    }
    proof {
        lemma_first_some_none(pv, f);
    }
    None
}

/// The sample rate of the first `Audio:` stream line that states one, such as
/// `44100` from `Stream #0:0: Audio: pcm_s16le, 44100 Hz, stereo, s16`.
pub fn parse_sample_rate(stderr: &str) -> (r: Option<u32>)
    ensures
        r == sample_rate_in(stderr@),
{
    let ls = lines_of(&chars_of(stderr));
    let ghost lv = views(ls@);
    let ghost f = rate_in_line_fn();
    for i in 0..ls.len()
        invariant
            f == rate_in_line_fn(),
            lv == views(ls@),
            lv == lines(stderr@),
            lv.len() == ls.len(),
            forall|k: int| 0 <= k < i ==> (#[trigger] f(lv[k])) is None,
    {
        let r = rate_in_line_exec(&ls[i]);
        assert(lv[i as int] == ls@[i as int]@);
        if r.is_some() {
            proof {
                lemma_first_some_at(lv, f, i as int);
            }
            return r;
        }
    }
    proof {
        lemma_first_some_none(lv, f);
    }
    None
}

fn channels_of_part_exec(part: &Vec<char>) -> (r: Option<u32>)
    ensures
        r == channels_of_part(part@),
{
    let p = trimmed(part);
    if same(&p, &chars_of("stereo")) {
        Some(2)
    } else if same(&p, &chars_of("mono")) {
        Some(1)
    } else if includes(&p, &chars_of("5.1")) {
        Some(6)
    } else if includes(&p, &chars_of("7.1")) {
        Some(8)
    } else if includes(&p, &chars_of("quad")) {
        Some(4)
    } else {
        None
    }
}

fn channels_in_line_exec(line: &Vec<char>) -> (r: Option<u32>)
    ensures
        r == channels_in_line(line@),
{
    if !includes(line, &audio_marker()) {
        return None;
    }
    let parts = split_on(line, ',');
    let ghost pv = views(parts@);
    let ghost f = channels_of_part_fn();
    for i in 0..parts.len()
        invariant
            f == channels_of_part_fn(),
            pv == views(parts@),
            pv == split_char(line@, ','),
            contains(line@, "Audio:"@),
            pv.len() == parts.len(),
            forall|k: int| 0 <= k < i ==> (#[trigger] f(pv[k])) is None,
    {
        let r = channels_of_part_exec(&parts[i]);
        assert(pv[i as int] == parts@[i as int]@);
        if r.is_some() {
            proof {
                lemma_first_some_at(pv, f, i as int);
            }
            return r;
        }
    }
    proof {
        lemma_first_some_none(pv, f);
    }
    None
}

/// The channel count of the first `Audio:` stream line that names a layout:
/// `stereo` 2, `mono` 1, and layouts mentioning `5.1` 6, `7.1` 8, `quad` 4.
pub fn parse_channels(stderr: &str) -> (r: Option<u32>)
    ensures
        r == channels_in(stderr@),
{
    let ls = lines_of(&chars_of(stderr));
    let ghost lv = views(ls@);
    let ghost f = channels_in_line_fn();
    for i in 0..ls.len()
        invariant
            f == channels_in_line_fn(),
            lv == views(ls@),
            lv == lines(stderr@),
            lv.len() == ls.len(),
            forall|k: int| 0 <= k < i ==> (#[trigger] f(lv[k])) is None,
    {
        let r = channels_in_line_exec(&ls[i]);
        assert(lv[i as int] == ls@[i as int]@);
        if r.is_some() {
            proof {
                lemma_first_some_at(lv, f, i as int);
            }
            return r;
        }
    }
    proof {
        lemma_first_some_none(lv, f);
    }
    None
}

fn depth_of_token_exec(tok: &Vec<char>) -> (r: Option<u32>)
    ensures
        r == depth_of_token(tok@),
{
    let a = strip_prefixes_of(tok, &chars_of("pcm_s"));
    let b = strip_prefixes_of(&a, &chars_of("pcm_u"));
    let c = strip_suffixes_of(&b, &chars_of("le"));
    let d = strip_suffixes_of(&c, &chars_of("be"));
    match parse_number(&d) {
        Some(bd) => if bd == 8 || bd == 16 || bd == 24 || bd == 32 {
            Some(bd)
        } else {
            None
        },
        None => None,
    }
}

fn depth_of_part_exec(part: &Vec<char>) -> (r: Option<u32>)
    ensures
        r == depth_of_part(part@),
{
    let toks = ws_split(part);
    let ghost tv = views(toks@);
    let ghost f = depth_of_token_fn();
    for i in 0..toks.len()
        invariant
            f == depth_of_token_fn(),
            tv == views(toks@),
            tv == ws_tokens(part@),
            tv.len() == toks.len(),
            forall|k: int| 0 <= k < i ==> (#[trigger] f(tv[k])) is None,
    {
        let r = depth_of_token_exec(&toks[i]);
        assert(tv[i as int] == toks@[i as int]@);
        if r.is_some() {
            proof {
                lemma_first_some_at(tv, f, i as int);
            }
            return r;
        }
    }
    proof {
        lemma_first_some_none(tv, f);
    }
    None
}

fn depth_in_line_exec(line: &Vec<char>) -> (r: Option<u32>)
    ensures
        r == depth_in_line(line@),
{
    if !includes(line, &audio_marker()) {
        return None;
    }
    let parts = split_on(line, ',');
    let ghost pv = views(parts@);
    let ghost f = depth_of_part_fn();
    for i in 0..parts.len()
        invariant
            f == depth_of_part_fn(),
            pv == views(parts@),
            pv == split_char(line@, ','),
            contains(line@, "Audio:"@),
            pv.len() == parts.len(),
            forall|k: int| 0 <= k < i ==> (#[trigger] f(pv[k])) is None,
    {
        let r = depth_of_part_exec(&parts[i]);
        assert(pv[i as int] == parts@[i as int]@);
        if r.is_some() {
            proof {
                lemma_first_some_at(pv, f, i as int);
            }
            return r;
        }
    }
    proof {
        lemma_first_some_none(pv, f);
    }
    None
}

/// The bit depth (8, 16, 24 or 32) named by a sample-format token, such as
/// `pcm_s24le`, in the first `Audio:` stream line that has one.
pub fn parse_bit_depth(stderr: &str) -> (r: Option<u32>)
    ensures
        r == bit_depth_in(stderr@),
{
    let ls = lines_of(&chars_of(stderr));
    let ghost lv = views(ls@);
    let ghost f = depth_in_line_fn();
    for i in 0..ls.len()
        invariant
            f == depth_in_line_fn(),
            lv == views(ls@),
            lv == lines(stderr@),
            lv.len() == ls.len(),
            forall|k: int| 0 <= k < i ==> (#[trigger] f(lv[k])) is None,
    {
        let r = depth_in_line_exec(&ls[i]);
        assert(lv[i as int] == ls@[i as int]@);
        if r.is_some() {
            proof {
                lemma_first_some_at(lv, f, i as int);
            }
            return r;
        }
    }
    proof {
        lemma_first_some_none(lv, f);
    }
    None
}

fn codec_in_line_exec(line: &Vec<char>) -> (r: Option<Vec<char>>)
    ensures
        match r {
            Some(v) => codec_in_line(line@) == Some(v@),
            None => codec_in_line(line@) is None,
        },
{
    match after_first_of(line, &audio_marker()) {
        Some(after) => {
            let words = ws_split(&before_char_of(&after, ','));
            if words.len() > 0 {
                Some(words[0].clone())
            } else {
                None
            }
        },
        None => None,
    }
}

/// The codec named after `Audio:` in the first stream line that names one,
/// such as `pcm_s16le`.
pub fn parse_codec(stderr: &str) -> (r: Option<String>)
    ensures
        opt_view(r) == codec_in(stderr@),
{
    let ls = lines_of(&chars_of(stderr));
    let ghost lv = views(ls@);
    let ghost f = codec_in_line_fn();
    for i in 0..ls.len()
        invariant
            f == codec_in_line_fn(),
            lv == views(ls@),
            lv == lines(stderr@),
            lv.len() == ls.len(),
            forall|k: int| 0 <= k < i ==> (#[trigger] f(lv[k])) is None,
    {
        let r = codec_in_line_exec(&ls[i]);
        assert(lv[i as int] == ls@[i as int]@);
        match r {
            Some(v) => {
                proof {
                    lemma_first_some_at(lv, f, i as int);
                }
                return Some(string_of(&v));
            },
            None => {},
        }
    }
    proof {
        lemma_first_some_none(lv, f);
    }
    None
}

/// A triple of strings as text.
pub open spec fn triple_view(t: (String, String, String)) -> (Seq<char>, Seq<char>, Seq<char>) {
    (t.0@, t.1@, t.2@)
}

fn duration_in_line_exec(line: &Vec<char>) -> (r: Option<(Vec<char>, Vec<char>, Vec<char>)>)
    ensures
        match r {
            Some(t) => duration_in_line(line@) == Some((t.0@, t.1@, t.2@)),
            None => duration_in_line(line@) is None,
        },
{
    let after = match after_first_of(line, &chars_of("Duration:")) {
        Some(a) => a,
        None => return None,
    };
    let time = trimmed(&before_char_of(&trimmed(&after), ','));
    let i = match index_of_char(&time, ':') {
        Some(i) => i,
        None => return None,
    };
    proof {
        lemma_index_of_bound(time@, ':');
    }
    let rest = slice(&time, i + 1, time.len());
    assert(rest@ =~= time@.skip(i + 1));
    let j = match index_of_char(&rest, ':') {
        Some(j) => j,
        None => return None,
    };
    proof {
        lemma_index_of_bound(rest@, ':');
    }
    let h = trimmed(&slice(&time, 0, i));
    let m = trimmed(&slice(&rest, 0, j));
    let s = trimmed(&slice(&rest, j + 1, rest.len()));
    assert(time@.subrange(0, i as int) =~= time@.take(i as int));
    assert(rest@.subrange(0, j as int) =~= rest@.take(j as int));
    assert(rest@.subrange(j + 1, rest.len() as int) =~= rest@.skip(j + 1));
    Some((h, m, s))
}

/// The hours, minutes and seconds fields (trimmed text) of the first
/// `Duration:` line whose time has three colon-separated fields.
pub fn duration_fields(stderr: &str) -> (r: Option<(String, String, String)>)
    ensures
        match r {
            Some(t) => duration_in(stderr@) == Some(triple_view(t)),
            None => duration_in(stderr@) is None,
        },
{
    let ls = lines_of(&chars_of(stderr));
    let ghost lv = views(ls@);
    let ghost f = duration_in_line_fn();
    for i in 0..ls.len()
        invariant
            f == duration_in_line_fn(),
            lv == views(ls@),
            lv == lines(stderr@),
            lv.len() == ls.len(),
            forall|k: int| 0 <= k < i ==> (#[trigger] f(lv[k])) is None,
    {
        let r = duration_in_line_exec(&ls[i]);
        assert(lv[i as int] == ls@[i as int]@);
        match r {
            Some(t) => {
                proof {
                    lemma_first_some_at(lv, f, i as int);
                }
                return Some((string_of(&t.0), string_of(&t.1), string_of(&t.2)));
            },
            None => {},
        }
    }
    proof {
        lemma_first_some_none(lv, f);
    }
    None
}

/// The strings of a vector of character vectors.
pub fn strings_of(v: &Vec<Vec<char>>) -> (r: Vec<String>)
    ensures
        string_views(r@) == views(v@),
{
    let mut r: Vec<String> = Vec::new();
    for i in 0..v.len()
        invariant
            string_views(r@) == views(v@).take(i as int),
    {
        let s = string_of(&v[i]);
        let ghost before = r@;
        r.push(s);
        assert(string_views(r@) =~= string_views(before).push(s@));
        assert(views(v@).take(i + 1) =~= views(v@).take(i as int).push(v@[i as int]@));
    }
    assert(views(v@).take(v.len() as int) =~= views(v@));
    r
}

fn astats_line_exec(line: &Vec<char>, key: &Vec<char>) -> (r: Vec<Vec<char>>)
    ensures
        views(r@) == astats_line_candidates(line@, key@),
{
    let mut r: Vec<Vec<char>> = Vec::new();
    if !includes(line, key) {
        assert(views(r@) =~= Seq::<Seq<char>>::empty());
        return r;
    }
    let toks = ws_split(line);
    if toks.len() > 0 {
        let last = toks[toks.len() - 1].clone();
        r.push(last);
    }
    let ghost after_tok = views(r@);
    assert(after_tok =~= (if ws_tokens(line@).len() > 0 {
        seq![ws_tokens(line@).last()]
    } else {
        Seq::empty()
    }));
    match last_index_of_char(line, '=') {
        Some(p) => {
            proof {
                lemma_last_index_of_bound(line@, '=');
                assert(p < line.len());
            }
            let tail = slice(line, p + 1, line.len());
            assert(tail@ =~= line@.skip(p + 1));
            let t = trimmed(&tail);
            r.push(t);
            assert(views(r@) =~= after_tok + seq![trim(line@.skip(p + 1))]);
        },
        None => {
            assert(views(r@) =~= after_tok + Seq::<Seq<char>>::empty());
        },
    }
    r
}

/// The texts that might hold the value of the astats statistic `key`, in
/// the order they are tried: for each line mentioning `key`, its last
/// whitespace-separated token and the trimmed text after its last `=`.
pub fn astats_candidates(stderr: &str, key: &str) -> (r: Vec<String>)
    ensures
        string_views(r@) == astats_candidates_in(stderr@, key@),
{
    let k = chars_of(key);
    let ls = lines_of(&chars_of(stderr));
    let ghost lv = views(ls@);
    let ghost f = astats_line_fn(key@);
    let mut out: Vec<Vec<char>> = Vec::new();
    for i in 0..ls.len()
        invariant
            f == astats_line_fn(key@),
            lv == views(ls@),
            lv == lines(stderr@),
            lv.len() == ls.len(),
            k@ == key@,
            views(out@) == flat_map(lv.take(i as int), f),
    {
        let c = astats_line_exec(&ls[i], &k);
        assert(lv.take(i + 1).drop_last() =~= lv.take(i as int));
        assert(lv.take(i + 1).last() == ls@[i as int]@);
        let ghost before = views(out@);
        for j in 0..c.len()
            invariant
                views(out@) == before + views(c@).take(j as int),
        {
            let ghost o = views(out@);
            out.push(c[j].clone());
            assert(views(out@) =~= o.push(c@[j as int]@));
            assert(views(c@).take(j + 1) =~= views(c@).take(j as int).push(c@[j as int]@));
        }
        assert(views(c@).take(c.len() as int) =~= views(c@));
    }
    assert(lv.take(ls.len() as int) =~= lv);
    strings_of(&out)
}

fn phase_line_exec(line: &Vec<char>) -> (r: Vec<Vec<char>>)
    ensures
        views(r@) == phase_line_candidates(line@),
{
    let mut r: Vec<Vec<char>> = Vec::new();
    if includes(line, &chars_of("aphasemeter.phase")) || includes(line, &chars_of("phase=")) {
        let t = trimmed(&after_last_char_of(line, '='));
        r.push(t);
        assert(views(r@) =~= seq![t@]);
    } else {
        assert(views(r@) =~= Seq::<Seq<char>>::empty());
    }
    r
}

/// The texts of the per-frame phase values: for each line reporting the
/// phase meter, the trimmed text after its last `=`.
pub fn phase_candidates(stderr: &str) -> (r: Vec<String>)
    ensures
        string_views(r@) == phase_candidates_in(stderr@),
{
    let ls = lines_of(&chars_of(stderr));
    let ghost lv = views(ls@);
    let ghost f = phase_line_candidates_fn();
    let mut out: Vec<Vec<char>> = Vec::new();
    for i in 0..ls.len()
        invariant
            f == phase_line_candidates_fn(),
            lv == views(ls@),
            lv == lines(stderr@),
            lv.len() == ls.len(),
            views(out@) == flat_map(lv.take(i as int), f),
    {
        let c = phase_line_exec(&ls[i]);
        assert(lv.take(i + 1).drop_last() =~= lv.take(i as int));
        assert(lv.take(i + 1).last() == ls@[i as int]@);
        let ghost before = views(out@);
        for j in 0..c.len()
            invariant
                views(out@) == before + views(c@).take(j as int),
        {
            let ghost o = views(out@);
            out.push(c[j].clone());
            assert(views(out@) =~= o.push(c@[j as int]@));
            assert(views(c@).take(j + 1) =~= views(c@).take(j as int).push(c@[j as int]@));
        }
        assert(views(c@).take(c.len() as int) =~= views(c@));
    }
    assert(lv.take(ls.len() as int) =~= lv);
    strings_of(&out)
}

fn volume_line_exec(line: &Vec<char>) -> (r: Vec<Vec<char>>)
    ensures
        views(r@) == volume_line_candidates(line@),
{
    if includes(line, &chars_of("mean_volume")) {
        ws_split(line)
    } else {
        let r: Vec<Vec<char>> = Vec::new();
        assert(views(r@) =~= Seq::<Seq<char>>::empty());
        r
    }
}

/// The texts that might hold volumedetect's `mean_volume`, in the order they
/// are tried: every whitespace-separated token of every `mean_volume` line.
pub fn volume_candidates(stderr: &str) -> (r: Vec<String>)
    ensures
        string_views(r@) == volume_candidates_in(stderr@),
{
    let ls = lines_of(&chars_of(stderr));
    let ghost lv = views(ls@);
    let ghost f = volume_line_candidates_fn();
    let mut out: Vec<Vec<char>> = Vec::new();
    for i in 0..ls.len()
        invariant
            f == volume_line_candidates_fn(),
            lv == views(ls@),
            lv == lines(stderr@),
            lv.len() == ls.len(),
            views(out@) == flat_map(lv.take(i as int), f),
    {
        let c = volume_line_exec(&ls[i]);
        assert(lv.take(i + 1).drop_last() =~= lv.take(i as int));
        assert(lv.take(i + 1).last() == ls@[i as int]@);
        let ghost before = views(out@);
        for j in 0..c.len()
            invariant
                views(out@) == before + views(c@).take(j as int),
        {
            let ghost o = views(out@);
            out.push(c[j].clone());
            assert(views(out@) =~= o.push(c@[j as int]@));
            assert(views(c@).take(j + 1) =~= views(c@).take(j as int).push(c@[j as int]@));
        }
        assert(views(c@).take(c.len() as int) =~= views(c@));
    }
    assert(lv.take(ls.len() as int) =~= lv);
    strings_of(&out)
}

/// The JSON block of loudnorm's first-pass report: the text from the last `{`
/// through the last `}` of ffmpeg's output.
pub fn loudnorm_json_text(stderr: &str) -> (r: Result<String, LoudnormTextError>)
    ensures
        match r {
            Ok(s) => loudnorm_json_span(stderr@) == Ok::<Seq<char>, LoudnormTextError>(s@),
            Err(e) => loudnorm_json_span(stderr@) == Err::<Seq<char>, LoudnormTextError>(e),
        },
{
    let text = chars_of(stderr);
    let start = match last_index_of_char(&text, '{') {
        Some(i) => i,
        None => return Err(LoudnormTextError::NoJson),
    };
    let end = match last_index_of_char(&text, '}') {
        Some(i) => i,
        None => return Err(LoudnormTextError::NoClosingBrace),
    };
    if end < start {
        return Err(LoudnormTextError::Malformed);
    }
    proof {
        lemma_last_index_of_bound(text@, '}');
    }
    Ok(string_of(&slice(&text, start, end + 1)))
}

// ── Clock display ────────────────────────────────────────────────────────────

/// `HH:MM:SS` for a number of seconds; the hours field grows past two digits
/// when it must.
pub open spec fn clock(total: nat) -> Seq<char> {
    decimal_pad2(total / 3600) + seq![':'] + decimal_pad2((total % 3600) / 60) + seq![':']
        + decimal_pad2(total % 60)
}

/// A duration in whole seconds as `HH:MM:SS`.
pub fn clock_display(total_secs: u32) -> (r: String)
    ensures
        r@ == clock(total_secs as nat),
{
    let mut v = decimal_pad2_of(total_secs / 3600);
    v.push(':');
    let m = decimal_pad2_of((total_secs % 3600) / 60);
    extend(&mut v, &m);
    v.push(':');
    let s = decimal_pad2_of(total_secs % 60);
    extend(&mut v, &s);
    string_of(&v)
}

} // verus!

verus! {

proof fn lemma_decimal_digits(n: nat)
    ensures
        decimal(n).len() > 0,
        all_digits(decimal(n)),
        digits_value(decimal(n)) == n,
    decreases n,
{
    let d = digit_char(n % 10);
    assert(((n % 10 + 48) as u32) as char as u32 == n % 10 + 48);
    assert('0' as u32 == 48);
    assert(digit_value(d) == n % 10);
    if n >= 10 {
        lemma_decimal_digits(n / 10);
        let s = decimal(n);
        assert(s.drop_last() =~= decimal(n / 10));
        assert(s.last() == d);
        assert((n / 10) * 10 + n % 10 == n);
        assert forall|i: int| 0 <= i < s.len() implies is_digit(#[trigger] s[i]) by {
            if i < s.len() - 1 {
                assert(s[i] == decimal(n / 10)[i]);
            }
        }
    } else {
        let s = decimal(n);
        assert(s.drop_last() =~= Seq::<char>::empty());
        assert(digits_value(s.drop_last()) == 0);
        assert(s.last() == d);
    }
}

proof fn lemma_leading_zero(s: Seq<char>)
    ensures
        digits_value(seq!['0'] + s) == digits_value(s),
    decreases s.len(),
{
    if s.len() == 0 {
        let z = seq!['0'] + s;
        assert(z.drop_last() =~= Seq::<char>::empty());
        assert(digits_value(z.drop_last()) == 0);
        assert(z.last() == '0');
        assert(digit_value('0') == 0);
    } else {
        lemma_leading_zero(s.drop_last());
        let z = seq!['0'] + s;
        assert(z.drop_last() =~= seq!['0'] + s.drop_last());
        assert(z.last() == s.last());
    }
}

proof fn lemma_pad2_reads_back(n: nat)
    requires
        n <= u32::MAX,
    ensures
        parse_u32(decimal_pad2(n)) == Some(n as u32),
        forall|i: int| 0 <= i < decimal_pad2(n).len() ==> #[trigger] decimal_pad2(n)[i] != ':',
{
    lemma_decimal_digits(n);
    let p = decimal_pad2(n);
    if n < 10 {
        lemma_leading_zero(decimal(n));
        assert forall|i: int| 0 <= i < p.len() implies is_digit(#[trigger] p[i]) by {
            if i > 0 {
                assert(p[i] == decimal(n)[i - 1]);
            }
        }
    }
    assert(all_digits(p));
    assert forall|i: int| 0 <= i < p.len() implies #[trigger] p[i] != ':' by {
        assert(is_digit(p[i]));
    }
    assert(p[0] != '+') by {
        assert(is_digit(p[0]));
    }
}

/// A clock display reads back: its three colon-separated fields parse as
/// whole numbers (hours, minutes below 60, seconds below 60) that add up to
/// the total number of seconds.
pub proof fn law_clock_reads_back(total: u32)
    ensures
        ({
            let f = split_char(clock(total as nat), ':');
            &&& f.len() == 3
            &&& parse_u32(f[0]) matches Some(h)
            &&& parse_u32(f[1]) matches Some(m)
            &&& parse_u32(f[2]) matches Some(s)
            &&& m < 60 && s < 60
            &&& h * 3600 + m * 60 + s == total
        }),
{
    let t = total as nat;
    let h = t / 3600;
    let m = (t % 3600) / 60;
    let s = t % 60;
    lemma_pad2_reads_back(h);
    lemma_pad2_reads_back(m);
    lemma_pad2_reads_back(s);
    let a = decimal_pad2(h);
    let b = decimal_pad2(m);
    let c = decimal_pad2(s);
    assert(clock(t) =~= a + seq![':'] + (b + seq![':'] + c));
    lemma_split_around(a, b + seq![':'] + c, ':');
    lemma_split_around(b, c, ':');
    lemma_split_whole(a, ':');
    lemma_split_whole(b, ':');
    lemma_split_whole(c, ':');
    let f = split_char(clock(t), ':');
    assert(f =~= seq![a, b, c]);
    assert(h * 3600 + m * 60 + s == t) by (nonlinear_arith)
        requires
            h == t / 3600,
            m == (t % 3600) / 60,
            s == t % 60,
    ;
}

} // verus!

verus! {

// ── Measurement passes ───────────────────────────────────────────────────────

/// The arguments of a pass that decodes `input` (through the audio filter
/// `filter`, when there is one) and discards the result into `sink`.
pub open spec fn pass_args(input: Seq<char>, filter: Option<Seq<char>>, sink: Seq<char>) -> Seq<Seq<char>> {
    match filter {
        Some(f) => seq!["-hide_banner"@, "-i"@, input, "-af"@, f, "-f"@, "null"@, sink],
        None => seq!["-hide_banner"@, "-i"@, input, "-f"@, "null"@, sink],
    }
}

/// The arguments of a measurement pass over `input`.
pub fn measure_args(input: &str, filter: Option<&str>, sink: &str) -> (r: Vec<String>)
    ensures
        string_views(r@) == pass_args(
            input@,
            match filter {
                Some(f) => Some(f@),
                None => None,
            },
            sink@,
        ),
{
    let mut a: Vec<String> = Vec::new();
    a.push(owned("-hide_banner"));
    a.push(owned("-i"));
    a.push(owned(input));
    match filter {
        Some(f) => {
            a.push(owned("-af"));
            a.push(owned(f));
        },
        None => {},
    }
    a.push(owned("-f"));
    a.push(owned("null"));
    a.push(owned(sink));
    proof {
        let f = match filter {
            Some(f) => Some(f@),
            None => None,
        };
        assert(string_views(a@) =~= pass_args(input@, f, sink@));
    }
    a
}

/// `run` was called with `args` and may have answered `answer`.
pub open spec fn answered<T, E, R: Fn(&Vec<String>) -> Result<T, E>>(
    run: R,
    args: Seq<Seq<char>>,
    answer: Result<T, E>,
) -> bool {
    exists|v: Vec<String>| string_views(v@) == args && call_ensures(run, (&v,), answer)
}

/// The error output of a pass: that of a `checked` run of `args`, or, when
/// that run fails, that of a `plain` run of the same arguments, whose exit
/// status is not judged (some passes end with a failure status and still
/// print what is wanted).
pub fn pass_output<E, C, P>(checked: &C, plain: &P, args: &Vec<String>) -> (r: Result<String, E>) where
    C: Fn(&Vec<String>) -> Result<crate::ffmpeg::FfmpegOutput, E>,
    P: Fn(&Vec<String>) -> Result<crate::ffmpeg::FfmpegOutput, E>,

    requires
        checked.requires((args,)),
        plain.requires((args,)),
    ensures
        ({
            ||| exists|o: crate::ffmpeg::FfmpegOutput|
                answered(*checked, string_views(args@), Ok(o)) && r == Ok::<String, E>(o.stderr)
            ||| exists|e1: E|
                answered(*checked, string_views(args@), Err(e1)) && match r {
                    Ok(s) => exists|o: crate::ffmpeg::FfmpegOutput|
                        answered(*plain, string_views(args@), Ok(o)) && s == o.stderr,
                    Err(e) => answered(*plain, string_views(args@), Err(e)),
                }
        }),
{
    let first = checked(args);
    assert(call_ensures(*checked, (args,), first));
    match first {
        Ok(o) => {
            assert(answered(*checked, string_views(args@), Ok(o)));
            Ok(o.stderr)
        },
        Err(e1) => {
            assert(answered(*checked, string_views(args@), Err::<crate::ffmpeg::FfmpegOutput, E>(e1)));
            let second = plain(args);
            assert(call_ensures(*plain, (args,), second));
            match second {
                Ok(o) => {
                    assert(answered(*plain, string_views(args@), Ok(o)));
                    Ok(o.stderr)
                },
                Err(e) => {
                    assert(answered(*plain, string_views(args@), Err::<crate::ffmpeg::FfmpegOutput, E>(e)));
                    Err(e)
                },
            }
        },
    }
}

/// The stream metadata of a probe pass. Where the output does not state a
/// value, the sample rate is taken as 44100 Hz, the layout as stereo and the
/// codec as `unknown`; the duration fields are given as text.
#[derive(Debug, Clone)]
pub struct ProbeFields {
    pub duration: Option<(String, String, String)>,
    pub sample_rate: u32,
    pub channels: u32,
    pub bit_depth: Option<u32>,
    pub codec: String,
}

/// The probe fields that the output `text` of a probe pass gives.
pub open spec fn probe_of(text: Seq<char>, p: ProbeFields) -> bool {
    &&& match p.duration {
        Some(t) => duration_in(text) == Some(triple_view(t)),
        None => duration_in(text) is None,
    }
    &&& p.sample_rate == match sample_rate_in(text) {
        Some(r) => r,
        None => 44100,
    }
    &&& p.channels == match channels_in(text) {
        Some(c) => c,
        None => 2,
    }
    &&& p.bit_depth == bit_depth_in(text)
    &&& p.codec@ == match codec_in(text) {
        Some(c) => c,
        None => "unknown"@,
    }
}

/// Reads the stream metadata of a probe pass's output.
pub fn probe_fields(stderr: &str) -> (r: ProbeFields)
    ensures
        probe_of(stderr@, r),
{
    let codec = match parse_codec(stderr) {
        Some(c) => c,
        None => owned("unknown"),
    };
    ProbeFields {
        duration: duration_fields(stderr),
        sample_rate: match parse_sample_rate(stderr) {
            Some(r) => r,
            None => 44100,
        },
        channels: match parse_channels(stderr) {
            Some(c) => c,
            None => 2,
        },
        bit_depth: parse_bit_depth(stderr),
        codec,
    }
}

/// Probes `input`: decodes it into `sink` and reads the stream metadata that
/// ffmpeg prints, running the pass through `checked` and, when that fails,
/// through `plain`.
pub fn probe_file<E, C, P>(checked: &C, plain: &P, input: &str, sink: &str) -> (r: Result<ProbeFields, E>) where
    C: Fn(&Vec<String>) -> Result<crate::ffmpeg::FfmpegOutput, E>,
    P: Fn(&Vec<String>) -> Result<crate::ffmpeg::FfmpegOutput, E>,

    requires
        forall|a: &Vec<String>| checked.requires((a,)),
        forall|a: &Vec<String>| plain.requires((a,)),
    ensures
        ({
            let args = pass_args(input@, None, sink@);
            match r {
                Ok(p) => {
                    ||| exists|o: crate::ffmpeg::FfmpegOutput|
                        answered(*checked, args, Ok(o)) && probe_of(o.stderr@, p)
                    ||| exists|e1: E, o: crate::ffmpeg::FfmpegOutput|
                        answered(*checked, args, Err(e1)) && answered(*plain, args, Ok(o))
                            && probe_of(o.stderr@, p)
                },
                Err(e) => exists|e1: E|
                    answered(*checked, args, Err(e1)) && answered(*plain, args, Err(e)),
            }
        }),
{
    let args = measure_args(input, None, sink);
    match pass_output(checked, plain, &args) {
        Ok(text) => {
            let p = probe_fields(text.as_str());
            Ok(p)
        },
        Err(e) => Err(e),
    }
}

} // verus!

verus! {

/// The stream metadata comes from the first line that states it: once the
/// complete lines of `a` state a sample rate, channel count, bit depth, codec
/// or duration, whatever output follows them (such as the null muxer's own
/// output stream) leaves that value as it is.
pub proof fn law_first_stream_line_wins(a: Seq<char>, b: Seq<char>)
    ensures
        sample_rate_in(a + seq!['\n']) is Some ==> sample_rate_in(a + seq!['\n'] + b)
            == sample_rate_in(a + seq!['\n']),
        channels_in(a + seq!['\n']) is Some ==> channels_in(a + seq!['\n'] + b) == channels_in(
            a + seq!['\n'],
        ),
        bit_depth_in(a + seq!['\n']) is Some ==> bit_depth_in(a + seq!['\n'] + b) == bit_depth_in(
            a + seq!['\n'],
        ),
        codec_in(a + seq!['\n']) is Some ==> codec_in(a + seq!['\n'] + b) == codec_in(
            a + seq!['\n'],
        ),
        duration_in(a + seq!['\n']) is Some ==> duration_in(a + seq!['\n'] + b) == duration_in(
            a + seq!['\n'],
        ),
{
    let la = lines(a + seq!['\n']);
    let lt = lines(a + seq!['\n'] + b);
    crate::text::lemma_lines_extend(a, b);
    let rest = lt.skip(la.len() as int);
    assert(lt =~= la + rest);
    if sample_rate_in(a + seq!['\n']) is Some {
        crate::text::lemma_first_some_prefix(la, rest, rate_in_line_fn());
    }
    if channels_in(a + seq!['\n']) is Some {
        crate::text::lemma_first_some_prefix(la, rest, channels_in_line_fn());
    }
    if bit_depth_in(a + seq!['\n']) is Some {
        crate::text::lemma_first_some_prefix(la, rest, depth_in_line_fn());
    }
    if codec_in(a + seq!['\n']) is Some {
        crate::text::lemma_first_some_prefix(la, rest, codec_in_line_fn());
    }
    if duration_in(a + seq!['\n']) is Some {
        crate::text::lemma_first_some_prefix(la, rest, duration_in_line_fn());
    }
}

} // verus!
