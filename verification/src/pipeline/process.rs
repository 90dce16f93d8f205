//! The mastering pass: the filter chain, the encoder for the chosen output
//! format, and the ffmpeg arguments of the run.
use vstd::prelude::*;
use crate::config::OutputConfig;
use crate::paths::{lemma_split_around, lemma_split_whole};
use crate::text::{
    chars_of, contains, decimal, decimal_of, ends_with, extend, join, join_with, owned, split_char,
    string_of, string_views, views,
};

verus! {

// ── Filter chain ─────────────────────────────────────────────────────────────

/// The compressor stage's settings, each already written as a number.
#[derive(Debug, Clone)]
pub struct CompressorText {
    pub threshold_db: String,
    pub ratio: String,
    pub attack_ms: String,
    pub release_ms: String,
    pub makeup_db: String,
    pub knee_db: String,
}

/// The limiter stage's settings, each already written as a number.
#[derive(Debug, Clone)]
pub struct LimiterText {
    /// The linear output level and ceiling.
    pub level: String,
    pub attack_ms: String,
    pub release_ms: String,
}

/// The loudnorm stage's targets and first-pass measurements, each already
/// written as a number.
#[derive(Debug, Clone)]
pub struct LoudnormText {
    pub lufs: String,
    pub true_peak: String,
    pub lra: String,
    pub measured_i: String,
    pub measured_lra: String,
    pub measured_tp: String,
    pub measured_thresh: String,
    pub offset: String,
}

/// The stages of a filter chain: a stage that is `None` is disabled.
#[derive(Debug, Clone)]
pub struct FilterChainText {
    /// The high-pass cutoff in Hz.
    pub highpass_hz: Option<String>,
    /// The low-pass cutoff in Hz.
    pub lowpass_hz: Option<String>,
    pub compressor: Option<CompressorText>,
    pub limiter: Option<LimiterText>,
    pub loudnorm: LoudnormText,
}

/// The `acompressor` stage of the filter chain.
pub open spec fn compressor_filter(c: CompressorText) -> Seq<char> {
    "acompressor=threshold="@ + c.threshold_db@ + "dB:ratio="@ + c.ratio@ + ":attack="@
        + c.attack_ms@ + ":release="@ + c.release_ms@ + ":makeup="@ + c.makeup_db@ + ":knee="@
        + c.knee_db@
}

/// The `alimiter` stage of the filter chain.
pub open spec fn limiter_filter(l: LimiterText) -> Seq<char> {
    "alimiter=level_in=1:level_out="@ + l.level@ + ":limit="@ + l.level@ + ":attack="@
        + l.attack_ms@ + ":release="@ + l.release_ms@ + ":asc=1"@
}

/// The linear `loudnorm` stage, fed the first pass's measurements.
pub open spec fn loudnorm_filter(n: LoudnormText) -> Seq<char> {
    "loudnorm=I="@ + n.lufs@ + ":TP="@ + n.true_peak@ + ":LRA="@ + n.lra@ + ":measured_I="@
        + n.measured_i@ + ":measured_LRA="@ + n.measured_lra@ + ":measured_TP="@
        + n.measured_tp@ + ":measured_thresh="@ + n.measured_thresh@ + ":offset="@ + n.offset@
        + ":linear=true:print_format=summary"@
}

/// The enabled stages in their fixed order: high-pass, low-pass, compressor,
/// limiter, and loudnorm last.
pub open spec fn chain_stages(c: FilterChainText) -> Seq<Seq<char>> {
    let s1: Seq<Seq<char>> = match c.highpass_hz {
        Some(f) => seq!["highpass=f="@ + f@],
        None => Seq::empty(),
    };
    let s2 = match c.lowpass_hz {
        Some(f) => s1.push("lowpass=f="@ + f@),
        None => s1,
    };
    let s3 = match c.compressor {
        Some(k) => s2.push(compressor_filter(k)),
        None => s2,
    };
    let s4 = match c.limiter {
        Some(l) => s3.push(limiter_filter(l)),
        None => s3,
    };
    s4.push(loudnorm_filter(c.loudnorm))
}

/// Appends the characters of a string slice.
fn put(v: &mut Vec<char>, s: &str)
    ensures
        final(v)@ == old(v)@ + s@,
{
    extend(v, &chars_of(s));
}

fn compressor_chars(k: &CompressorText) -> (r: Vec<char>)
    ensures
        r@ == compressor_filter(*k),
{
    let mut s = chars_of("acompressor=threshold=");
    put(&mut s, k.threshold_db.as_str());
    put(&mut s, "dB:ratio=");
    put(&mut s, k.ratio.as_str());
    put(&mut s, ":attack=");
    put(&mut s, k.attack_ms.as_str());
    put(&mut s, ":release=");
    put(&mut s, k.release_ms.as_str());
    put(&mut s, ":makeup=");
    put(&mut s, k.makeup_db.as_str());
    put(&mut s, ":knee=");
    put(&mut s, k.knee_db.as_str());
    s
}

fn limiter_chars(l: &LimiterText) -> (r: Vec<char>)
    ensures
        r@ == limiter_filter(*l),
{
    let mut s = chars_of("alimiter=level_in=1:level_out=");
    put(&mut s, l.level.as_str());
    put(&mut s, ":limit=");
    put(&mut s, l.level.as_str());
    put(&mut s, ":attack=");
    put(&mut s, l.attack_ms.as_str());
    put(&mut s, ":release=");
    put(&mut s, l.release_ms.as_str());
    put(&mut s, ":asc=1");
    s
}

fn loudnorm_chars(n: &LoudnormText) -> (r: Vec<char>)
    ensures
        r@ == loudnorm_filter(*n),
{
    let mut s = chars_of("loudnorm=I=");
    put(&mut s, n.lufs.as_str());
    put(&mut s, ":TP=");
    put(&mut s, n.true_peak.as_str());
    put(&mut s, ":LRA=");
    put(&mut s, n.lra.as_str());
    put(&mut s, ":measured_I=");
    put(&mut s, n.measured_i.as_str());
    put(&mut s, ":measured_LRA=");
    put(&mut s, n.measured_lra.as_str());
    put(&mut s, ":measured_TP=");
    put(&mut s, n.measured_tp.as_str());
    put(&mut s, ":measured_thresh=");
    put(&mut s, n.measured_thresh.as_str());
    put(&mut s, ":offset=");
    put(&mut s, n.offset.as_str());
    put(&mut s, ":linear=true:print_format=summary");
    s
}

/// The ffmpeg audio filter chain: the enabled stages in their fixed order
/// (high-pass, low-pass, compressor, limiter, loudnorm), separated by commas.
pub fn build_filter_chain(c: &FilterChainText) -> (r: String)
    ensures
        r@ == join(chain_stages(*c), seq![',']),
{
    let mut stages: Vec<Vec<char>> = Vec::new();
    match &c.highpass_hz {
        Some(f) => {
            let mut s = chars_of("highpass=f=");
            extend(&mut s, &chars_of(f.as_str()));
            stages.push(s);
        },
        None => {},
    }
    let ghost v1 = views(stages@);
    match &c.lowpass_hz {
        Some(f) => {
            let mut s = chars_of("lowpass=f=");
            extend(&mut s, &chars_of(f.as_str()));
            stages.push(s);
            assert(views(stages@) =~= v1.push(s@));
        },
        None => {},
    }
    let ghost v2 = views(stages@);
    match &c.compressor {
        Some(k) => {
            let s = compressor_chars(k);
            assert(s@ =~= compressor_filter(*k));
            stages.push(s);
            assert(views(stages@) =~= v2.push(s@));
        },
        None => {},
    }
    let ghost v3 = views(stages@);
    match &c.limiter {
        Some(l) => {
            let s = limiter_chars(l);
            assert(s@ =~= limiter_filter(*l));
            stages.push(s);
            assert(views(stages@) =~= v3.push(s@));
        },
        None => {},
    }
    let ghost v4 = views(stages@);
    let n = &c.loudnorm;
    let s = loudnorm_chars(n);
    assert(s@ =~= loudnorm_filter(*n));
    stages.push(s);
    assert(views(stages@) =~= v4.push(s@));
    assert(views(stages@) =~= chain_stages(*c));
    let comma = chars_of(",");
    proof {
        reveal_strlit(",");
        assert(comma@ =~= seq![',']);
    }
    string_of(&join_with(&stages, &comma))
}

/// The last stage of every chain is loudnorm, so the loudness target is met
/// after whatever the stages before it did; and when no stage's text holds a
/// comma, splitting the chain at commas gives back exactly the enabled
/// stages, in order, each as one filter of ffmpeg's graph.
pub proof fn law_chain_stages(c: FilterChainText)
    ensures
        chain_stages(c).len() >= 1,
        chain_stages(c).last() == loudnorm_filter(c.loudnorm),
        (forall|i: int, k: int|
            0 <= i < chain_stages(c).len() && 0 <= k < chain_stages(c)[i].len()
                ==> #[trigger] chain_stages(c)[i][k] != ',') ==> split_char(
            join(chain_stages(c), seq![',']),
            ',',
        ) == chain_stages(c),
{
    let st = chain_stages(c);
    if forall|i: int, k: int| 0 <= i < st.len() && 0 <= k < st[i].len() ==> #[trigger] st[i][k] != ',' {
        lemma_split_join(st, ',');
    }
}

/// Splitting a join at its separator gives back the pieces, when no piece
/// holds the separator.
pub proof fn lemma_split_join(parts: Seq<Seq<char>>, c: char)
    requires
        parts.len() >= 1,
        forall|i: int, k: int| 0 <= i < parts.len() && 0 <= k < parts[i].len() ==> #[trigger] parts[i][k] != c,
    ensures
        split_char(join(parts, seq![c]), c) == parts,
    decreases parts.len(),
{
    let last = parts.last();
    assert forall|k: int| 0 <= k < last.len() implies #[trigger] last[k] != c by {
        assert(parts[parts.len() - 1][k] != c);
    }
    lemma_split_whole(last, c);
    if parts.len() == 1 {
        assert(parts =~= seq![last]);
    } else {
        let init = parts.drop_last();
        assert forall|i: int, k: int| 0 <= i < init.len() && 0 <= k < init[i].len() implies #[trigger] init[i][k] != c by {
            assert(init[i] == parts[i]);
        }
        lemma_split_join(init, c);
        lemma_split_around(join(init, seq![c]), last, c);
        assert(join(parts, seq![c]) == join(init, seq![c]) + seq![c] + last);
        assert(init + seq![last] =~= parts);
    }
}

// ── Encoder ──────────────────────────────────────────────────────────────────

/// The encoder for an output format, and its extra arguments: FLAC at
/// compression level 8, MP3 at VBR quality 0, AAC at 320k, and otherwise PCM
/// WAV at 16 bits, as 32-bit float at 32 bits, or at 24 bits for any other
/// depth.
pub open spec fn codec_for(format: Seq<char>, bit_depth: u32) -> (Seq<char>, Seq<Seq<char>>) {
    if format == "flac"@ {
        ("flac"@, seq!["-compression_level"@, "8"@])
    } else if format == "mp3"@ {
        ("libmp3lame"@, seq!["-q:a"@, "0"@])
    } else if format == "aac"@ {
        ("aac"@, seq!["-b:a"@, "320k"@])
    } else if bit_depth == 16 {
        ("pcm_s16le"@, Seq::empty())
    } else if bit_depth == 32 {
        ("pcm_f32le"@, Seq::empty())
    } else {
        ("pcm_s24le"@, Seq::empty())
    }
}

fn same_str(a: &str, b: &str) -> (r: bool)
    ensures
        r == (a@ == b@),
{
    crate::config::same_str(a, b)
}

/// The ffmpeg encoder and extra arguments for the output settings.
pub fn codec_args(output: &OutputConfig) -> (r: (String, Vec<String>))
    ensures
        (r.0@, string_views(r.1@)) == codec_for(output.format@, output.bit_depth),
{
    let f = output.format.as_str();
    let mut extra: Vec<String> = Vec::new();
    let codec: String;
    if same_str(f, "flac") {
        codec = owned("flac");
        extra.push(owned("-compression_level"));
        extra.push(owned("8"));
    } else if same_str(f, "mp3") {
        codec = owned("libmp3lame");
        extra.push(owned("-q:a"));
        extra.push(owned("0"));
    } else if same_str(f, "aac") {
        codec = owned("aac");
        extra.push(owned("-b:a"));
        extra.push(owned("320k"));
    } else if output.bit_depth == 16 {
        codec = owned("pcm_s16le");
    } else if output.bit_depth == 32 {
        codec = owned("pcm_f32le");
    } else {
        codec = owned("pcm_s24le");
    }
    assert(string_views(extra@) =~= codec_for(output.format@, output.bit_depth).1);
    (codec, extra)
}

/// The file extension of the master for an output format: `flac`, `mp3`,
/// `m4a` for AAC, and `wav` for anything else.
pub open spec fn extension_for(format: Seq<char>) -> Seq<char> {
    if format == "flac"@ {
        "flac"@
    } else if format == "mp3"@ {
        "mp3"@
    } else if format == "aac"@ {
        "m4a"@
    } else {
        "wav"@
    }
}

/// The file extension of the master for an output format.
pub fn output_extension(format: &str) -> (r: String)
    ensures
        r@ == extension_for(format@),
{
    if same_str(format, "flac") {
        owned("flac")
    } else if same_str(format, "mp3") {
        owned("mp3")
    } else if same_str(format, "aac") {
        owned("m4a")
    } else {
        owned("wav")
    }
}

// ── The mastering run ────────────────────────────────────────────────────────

/// What the mastering pass reports back.
#[derive(Debug, Clone)]
pub struct ProcessResult {
    /// The exact filter chain the master was made with.
    pub filter_chain: String,
}

/// The arguments of the mastering run: overwrite the output, read `input`,
/// filter it with `chain`, encode with the output's codec at its sample
/// rate, then the codec's extra arguments, then the output path.
pub open spec fn process_args(
    input: Seq<char>,
    output: Seq<char>,
    chain: Seq<char>,
    cfg: OutputConfig,
) -> Seq<Seq<char>> {
    let (codec, extra) = codec_for(cfg.format@, cfg.bit_depth);
    seq!["-hide_banner"@, "-y"@, "-i"@, input, "-af"@, chain, "-acodec"@, codec, "-ar"@, decimal(
        cfg.sample_rate as nat,
    )] + extra + seq![output]
}

/// `run` ran ffmpeg with `args` and may have answered `answer`.
pub open spec fn ran<E, R: Fn(&Vec<String>) -> Result<(), E>>(
    run: R,
    args: Seq<Seq<char>>,
    answer: Result<(), E>,
) -> bool {
    exists|v: Vec<String>| string_views(v@) == args && call_ensures(run, (&v,), answer)
}

/// Masters `input` into `output` with the filter chain `chain` and the
/// output settings, running ffmpeg through `run`.
pub fn run_process<E, R: Fn(&Vec<String>) -> Result<(), E>>(
    run: &R,
    input: &str,
    output: &str,
    chain: String,
    cfg: &OutputConfig,
) -> (r: Result<ProcessResult, E>)
    requires
        forall|a: &Vec<String>| run.requires((a,)),
    ensures
        match r {
            Ok(p) => p.filter_chain@ == chain@ && ran(
                *run,
                process_args(input@, output@, chain@, *cfg),
                Ok(()),
            ),
            Err(e) => ran(*run, process_args(input@, output@, chain@, *cfg), Err(e)),
        },
{
    let (codec, extra) = codec_args(cfg);
    let rate = string_of(&decimal_of(cfg.sample_rate));
    let mut args: Vec<String> = Vec::new();
    args.push(owned("-hide_banner"));
    args.push(owned("-y"));
    args.push(owned("-i"));
    args.push(owned(input));
    args.push(owned("-af"));
    args.push(chain.clone());
    args.push(owned("-acodec"));
    args.push(codec);
    args.push(owned("-ar"));
    args.push(rate);
    let ghost head = string_views(args@);
    for i in 0..extra.len()
        invariant
            string_views(args@) == head + string_views(extra@).take(i as int),
    {
        let ghost before = string_views(args@);
        args.push(extra[i].clone());
        assert(string_views(args@) =~= before.push(extra@[i as int]@));
        assert(string_views(extra@).take(i + 1) =~= string_views(extra@).take(i as int).push(
            extra@[i as int]@,
        ));
    }
    assert(string_views(extra@).take(extra.len() as int) =~= string_views(extra@));
    let ghost mid = string_views(args@);
    args.push(owned(output));
    assert(string_views(args@) =~= mid.push(output@));
    assert(string_views(args@) =~= process_args(input@, output@, chain@, *cfg));
    let res = run(&args);
    assert(call_ensures(*run, (&args,), res));
    match res {
        Ok(u) => {
            assert(res == Ok::<(), E>(()));
            Ok(ProcessResult { filter_chain: chain })
        },
        Err(e) => Err(e),
    }
}

} // verus!

verus! {

/// WAV output is written at the bit depth asked for: 24 bits as signed
/// 24-bit PCM, 16 bits and 32 bits each with an encoder of its own, only 32
/// bits as floating point, and any other depth as 24-bit; so the three
/// depths give three different encoders.
pub proof fn law_wav_encoder_follows_bit_depth(format: Seq<char>, d: u32)
    requires
        format != "flac"@,
        format != "mp3"@,
        format != "aac"@,
    ensures
        codec_for(format, 24).0 == "pcm_s24le"@,
        codec_for(format, d).0 == "pcm_f32le"@ ==> d == 32,
        d != 16 && d != 32 ==> codec_for(format, d) == codec_for(format, 24),
        codec_for(format, 16).0 != codec_for(format, 24).0,
        codec_for(format, 32).0 != codec_for(format, 24).0,
        codec_for(format, 16).0 != codec_for(format, 32).0,
        codec_for(format, d).1 == Seq::<Seq<char>>::empty(),
{
    reveal_strlit("pcm_s24le");
    reveal_strlit("pcm_f32le");
    reveal_strlit("pcm_s16le");
    assert("pcm_s24le"@[5] != "pcm_f32le"@[5]);
    assert("pcm_s24le"@[5] != "pcm_s16le"@[5]);
    assert("pcm_s16le"@[5] != "pcm_f32le"@[5]);
}

/// The mastering run reads `input`, filters it with `chain`, encodes it with
/// the encoder and extra arguments that `codec_args` selects for these very
/// output settings, resamples to their sample rate, and writes `output` last.
pub proof fn law_master_run_uses_selected_encoder(
    input: Seq<char>,
    output: Seq<char>,
    chain: Seq<char>,
    cfg: OutputConfig,
)
    ensures
        process_args(input, output, chain, cfg).len() == 11 + codec_for(cfg.format@, cfg.bit_depth).1.len(),
        process_args(input, output, chain, cfg)[2] == "-i"@,
        process_args(input, output, chain, cfg)[3] == input,
        process_args(input, output, chain, cfg)[4] == "-af"@,
        process_args(input, output, chain, cfg)[5] == chain,
        process_args(input, output, chain, cfg)[6] == "-acodec"@,
        process_args(input, output, chain, cfg)[7] == codec_for(cfg.format@, cfg.bit_depth).0,
        process_args(input, output, chain, cfg)[8] == "-ar"@,
        process_args(input, output, chain, cfg)[9] == decimal(cfg.sample_rate as nat),
        process_args(input, output, chain, cfg).subrange(10, 10 + codec_for(cfg.format@, cfg.bit_depth).1.len() as int)
            == codec_for(cfg.format@, cfg.bit_depth).1,
        process_args(input, output, chain, cfg).last() == output,
{
    let extra = codec_for(cfg.format@, cfg.bit_depth).1;
    let a = process_args(input, output, chain, cfg);
    assert(a.subrange(10, 10 + extra.len() as int) =~= extra);
}

/// Each stage of the chain carries the settings it was given, in the
/// parameters ffmpeg reads them from: the limiter's attack and release, the
/// compressor's threshold, ratio, timings, make-up gain and knee, and the
/// loudness targets and first-pass measurements of loudnorm.
pub proof fn law_stages_carry_their_settings(c: CompressorText, l: LimiterText, n: LoudnormText)
    ensures
        contains(limiter_filter(l), ":level_out="@ + l.level@ + ":limit="@ + l.level@ + ":"@),
        contains(limiter_filter(l), ":attack="@ + l.attack_ms@ + ":release="@ + l.release_ms@ + ":"@),
        contains(compressor_filter(c), "=threshold="@ + c.threshold_db@ + "dB:ratio="@ + c.ratio@ + ":"@),
        contains(compressor_filter(c), ":attack="@ + c.attack_ms@ + ":release="@ + c.release_ms@ + ":"@),
        contains(compressor_filter(c), ":makeup="@ + c.makeup_db@ + ":knee="@),
        ends_with(compressor_filter(c), ":knee="@ + c.knee_db@),
        contains(loudnorm_filter(n), "=I="@ + n.lufs@ + ":TP="@ + n.true_peak@ + ":LRA="@ + n.lra@ + ":"@),
        contains(
            loudnorm_filter(n),
            ":measured_I="@ + n.measured_i@ + ":measured_LRA="@ + n.measured_lra@ + ":measured_TP="@
                + n.measured_tp@ + ":measured_thresh="@ + n.measured_thresh@ + ":offset="@
                + n.offset@ + ":"@,
        ),
{
    reveal_strlit("alimiter=level_in=1:level_out=");
    reveal_strlit(":level_out=");
    reveal_strlit(":limit=");
    reveal_strlit(":attack=");
    reveal_strlit(":release=");
    reveal_strlit(":asc=1");
    reveal_strlit(":");
    reveal_strlit("acompressor=threshold=");
    reveal_strlit("=threshold=");
    reveal_strlit("dB:ratio=");
    reveal_strlit(":makeup=");
    reveal_strlit(":knee=");
    reveal_strlit("loudnorm=I=");
    reveal_strlit("=I=");
    reveal_strlit(":TP=");
    reveal_strlit(":LRA=");
    reveal_strlit(":measured_I=");
    reveal_strlit(":measured_LRA=");
    reveal_strlit(":measured_TP=");
    reveal_strlit(":measured_thresh=");
    reveal_strlit(":offset=");
    reveal_strlit(":linear=true:print_format=summary");
    let lf = limiter_filter(l);
    let p1 = ":level_out="@ + l.level@ + ":limit="@ + l.level@ + ":"@;
    let x1 = "alimiter=level_in=1"@;
    let y1 = "attack="@ + l.attack_ms@ + ":release="@ + l.release_ms@ + ":asc=1"@;
    reveal_strlit("alimiter=level_in=1");
    reveal_strlit("attack=");
    assert(lf =~= x1 + p1 + y1);
    crate::text::lemma_contains_middle(x1, p1, y1);
    let p2 = ":attack="@ + l.attack_ms@ + ":release="@ + l.release_ms@ + ":"@;
    let x2 = "alimiter=level_in=1:level_out="@ + l.level@ + ":limit="@ + l.level@;
    let y2 = "asc=1"@;
    reveal_strlit("asc=1");
    assert(lf =~= x2 + p2 + y2);
    crate::text::lemma_contains_middle(x2, p2, y2);

    let cf = compressor_filter(c);
    reveal_strlit("acompressor");
    reveal_strlit("attack=");
    let p3 = "=threshold="@ + c.threshold_db@ + "dB:ratio="@ + c.ratio@ + ":"@;
    let x3 = "acompressor"@;
    let y3 = "attack="@ + c.attack_ms@ + ":release="@ + c.release_ms@ + ":makeup="@ + c.makeup_db@
        + ":knee="@ + c.knee_db@;
    assert(cf =~= x3 + p3 + y3);
    crate::text::lemma_contains_middle(x3, p3, y3);
    let p4 = ":attack="@ + c.attack_ms@ + ":release="@ + c.release_ms@ + ":"@;
    let x4 = "acompressor=threshold="@ + c.threshold_db@ + "dB:ratio="@ + c.ratio@;
    reveal_strlit("makeup=");
    let y4 = "makeup="@ + c.makeup_db@ + ":knee="@ + c.knee_db@;
    assert(cf =~= x4 + p4 + y4);
    crate::text::lemma_contains_middle(x4, p4, y4);
    let p5 = ":makeup="@ + c.makeup_db@ + ":knee="@;
    let x5 = "acompressor=threshold="@ + c.threshold_db@ + "dB:ratio="@ + c.ratio@ + ":attack="@
        + c.attack_ms@ + ":release="@ + c.release_ms@;
    let y5 = c.knee_db@;
    assert(cf =~= x5 + p5 + y5);
    crate::text::lemma_contains_middle(x5, p5, y5);
    let suf = ":knee="@ + c.knee_db@;
    assert(cf.skip(cf.len() - suf.len()) =~= suf);

    let nf = loudnorm_filter(n);
    reveal_strlit("loudnorm");
    reveal_strlit("measured_I=");
    reveal_strlit("linear=true:print_format=summary");
    let p6 = "=I="@ + n.lufs@ + ":TP="@ + n.true_peak@ + ":LRA="@ + n.lra@ + ":"@;
    let x6 = "loudnorm"@;
    let y6 = "measured_I="@ + n.measured_i@ + ":measured_LRA="@ + n.measured_lra@ + ":measured_TP="@
        + n.measured_tp@ + ":measured_thresh="@ + n.measured_thresh@ + ":offset="@ + n.offset@
        + ":linear=true:print_format=summary"@;
    assert(nf =~= x6 + p6 + y6);
    crate::text::lemma_contains_middle(x6, p6, y6);
    let p7 = ":measured_I="@ + n.measured_i@ + ":measured_LRA="@ + n.measured_lra@ + ":measured_TP="@
        + n.measured_tp@ + ":measured_thresh="@ + n.measured_thresh@ + ":offset="@ + n.offset@ + ":"@;
    let x7 = "loudnorm=I="@ + n.lufs@ + ":TP="@ + n.true_peak@ + ":LRA="@ + n.lra@;
    let y7 = "linear=true:print_format=summary"@;
    assert(nf =~= x7 + p7 + y7);
    crate::text::lemma_contains_middle(x7, p7, y7);
}

} // verus!
