//! Spectrogram and waveform pictures, and the before/after comparisons made
//! from them. The images are drawn by ffmpeg, run through a function the
//! caller hands in.
use vstd::prelude::*;
use crate::config::VisualizationConfig;
use crate::paths::{file_stem, join_path, path_join, path_stem};
use crate::pipeline::process::ran;
use crate::text::{
    chars_of, decimal, decimal_of, extend, opt_view, owned, string_of, string_views,
};

verus! {

/// The pictures drawn of one audio file.
#[derive(Debug, Clone)]
pub struct VisualPaths {
    pub spectrogram: Option<String>,
    pub waveform: Option<String>,
}

/// The comparison pictures made from the pictures before and after mastering.
#[derive(Debug, Clone)]
pub struct ComparisonPaths {
    /// The spectrogram before (top) over the one after (bottom).
    pub stacked_spectrogram: Option<String>,
    /// The waveform before (top) over the one after (bottom).
    pub stacked_waveform: Option<String>,
    /// The contrast-amplified difference of the two spectrograms.
    pub diff_spectrogram: Option<String>,
    /// The contrast-amplified difference of the two waveforms.
    pub diff_waveform: Option<String>,
}

// ── One file's pictures ──────────────────────────────────────────────────────

/// The stem that names an input's pictures: its file stem, or `audio`.
pub open spec fn picture_stem(input: Seq<char>) -> Seq<char> {
    match file_stem(input) {
        Some(s) => s,
        None => "audio"@,
    }
}

/// `<out_dir>/<stem>_<tag>_<kind>.png`.
pub open spec fn picture_path(out_dir: Seq<char>, stem: Seq<char>, tag: Seq<char>, kind: Seq<char>) -> Seq<char> {
    path_join(out_dir, stem + "_"@ + tag + "_"@ + kind + ".png"@)
}

/// A picture size as ffmpeg takes it: `<width>x<height>`.
pub open spec fn size_text(w: u32, h: u32) -> Seq<char> {
    decimal(w as nat) + "x"@ + decimal(h as nat)
}

/// A log-frequency spectrogram with a legend.
pub open spec fn spectrogram_filter(cfg: VisualizationConfig) -> Seq<char> {
    "showspectrumpic=s="@ + size_text(cfg.width, cfg.spectrogram_height)
        + ":mode=combined:color=intensity:scale=log:legend=1"@
}

/// A waveform with the channels drawn apart, in two colours.
pub open spec fn waveform_filter(cfg: VisualizationConfig) -> Seq<char> {
    "showwavespic=s="@ + size_text(cfg.width, cfg.waveform_height)
        + ":split_channels=1:colors=0x4EA8DE|0xFF8C42"@
}

/// The ffmpeg arguments that draw `input` through `filter` into `out`.
pub open spec fn picture_args(input: Seq<char>, filter: Seq<char>, out: Seq<char>) -> Seq<Seq<char>> {
    seq!["-hide_banner"@, "-i"@, input, "-lavfi"@, filter, out]
}

/// `make_dir` was asked to create `dir` and may have answered `answer`.
pub open spec fn made<E, M: Fn(&String) -> Result<(), E>>(make_dir: M, dir: Seq<char>, answer: Result<(), E>) -> bool {
    exists|s: String| s@ == dir && call_ensures(make_dir, (&s,), answer)
}

fn size_chars(w: u32, h: u32) -> (r: Vec<char>)
    ensures
        r@ == size_text(w, h),
{
    let mut s = decimal_of(w);
    s.push('x');
    extend(&mut s, &decimal_of(h));
    proof {
        reveal_strlit("x");
        assert("x"@ =~= seq!['x']);
    }
    s
}

fn picture_args_exec(input: &str, filter: Vec<char>, out: &String) -> (r: Vec<String>)
    ensures
        string_views(r@) == picture_args(input@, filter@, out@),
{
    let mut a: Vec<String> = Vec::new();
    a.push(owned("-hide_banner"));
    a.push(owned("-i"));
    a.push(owned(input));
    a.push(owned("-lavfi"));
    a.push(string_of(&filter));
    a.push(out.clone());
    assert(string_views(a@) =~= picture_args(input@, filter@, out@));
    a
}

fn picture_file(out_dir: &str, stem: &str, tag: &str, kind: &str) -> (r: String)
    ensures
        r@ == picture_path(out_dir@, stem@, tag@, kind@),
{
    let mut n = chars_of(stem);
    n.push('_');
    extend(&mut n, &chars_of(tag));
    n.push('_');
    extend(&mut n, &chars_of(kind));
    extend(&mut n, &chars_of(".png"));
    proof {
        reveal_strlit("_");
        assert("_"@ =~= seq!['_']);
    }
    let name = string_of(&n);
    join_path(out_dir, name.as_str())
}

/// Draws the spectrogram and waveform of `input` into `out_dir`, as the
/// settings ask, naming them `<stem>_<tag>_spectrogram.png` and
/// `<stem>_<tag>_waveform.png`. Nothing is drawn when pictures are disabled;
/// otherwise `make_dir` first creates `out_dir`. The first failure stops the
/// work and is returned.
pub fn generate<E, R: Fn(&Vec<String>) -> Result<(), E>, M: Fn(&String) -> Result<(), E>>(
    run: &R,
    make_dir: &M,
    input: &str,
    out_dir: &str,
    cfg: &VisualizationConfig,
    tag: &str,
) -> (r: Result<VisualPaths, E>)
    requires
        forall|a: &Vec<String>| run.requires((a,)),
        forall|d: &String| make_dir.requires((d,)),
    ensures
        ({
            let stem = picture_stem(input@);
            let spec_path = picture_path(out_dir@, stem, tag@, "spectrogram"@);
            let wave_path = picture_path(out_dir@, stem, tag@, "waveform"@);
            let spec_args = picture_args(input@, spectrogram_filter(*cfg), spec_path);
            let wave_args = picture_args(input@, waveform_filter(*cfg), wave_path);
            let spec_ok = cfg.spectrogram ==> ran(*run, spec_args, Ok(()));
            match r {
                Ok(v) => if !cfg.enabled {
                    v.spectrogram is None && v.waveform is None
                } else {
                    &&& made(*make_dir, out_dir@, Ok(()))
                    &&& opt_view(v.spectrogram) == (if cfg.spectrogram {
                        Some(spec_path)
                    } else {
                        None
                    })
                    &&& opt_view(v.waveform) == (if cfg.waveform {
                        Some(wave_path)
                    } else {
                        None
                    })
                    &&& spec_ok
                    &&& cfg.waveform ==> ran(*run, wave_args, Ok(()))
                },
                Err(e) => cfg.enabled && {
                    ||| made(*make_dir, out_dir@, Err(e))
                    ||| (made(*make_dir, out_dir@, Ok(())) && cfg.spectrogram && ran(
                        *run,
                        spec_args,
                        Err(e),
                    ))
                    ||| (made(*make_dir, out_dir@, Ok(())) && spec_ok && cfg.waveform && ran(
                        *run,
                        wave_args,
                        Err(e),
                    ))
                },
            }
        }),
{
    if !cfg.enabled {
        return Ok(VisualPaths { spectrogram: None, waveform: None });
    }
    let dir = owned(out_dir);
    let made_dir = make_dir(&dir);
    assert(made(*make_dir, out_dir@, made_dir));
    match made_dir {
        Ok(u) => {
            assert(made_dir == Ok::<(), E>(()));
        },
        Err(e) => return Err(e),
    }
    let stem = match path_stem(input) {
        Some(s) => s,
        None => owned("audio"),
    };
    assert(stem@ == picture_stem(input@));
    let spectrogram = if cfg.spectrogram {
        let path = picture_file(out_dir, stem.as_str(), tag, "spectrogram");
        let mut f = chars_of("showspectrumpic=s=");
        extend(&mut f, &size_chars(cfg.width, cfg.spectrogram_height));
        extend(&mut f, &chars_of(":mode=combined:color=intensity:scale=log:legend=1"));
        assert(f@ =~= spectrogram_filter(*cfg));
        let args = picture_args_exec(input, f, &path);
        let res = run(&args);
        assert(call_ensures(*run, (&args,), res));
        match res {
            Ok(u) => {
                assert(res == Ok::<(), E>(()));
            },
            Err(e) => return Err(e),
        }
        Some(path)
    } else {
        None
    };
    let waveform = if cfg.waveform {
        let path = picture_file(out_dir, stem.as_str(), tag, "waveform");
        let mut f = chars_of("showwavespic=s=");
        extend(&mut f, &size_chars(cfg.width, cfg.waveform_height));
        extend(&mut f, &chars_of(":split_channels=1:colors=0x4EA8DE|0xFF8C42"));
        assert(f@ =~= waveform_filter(*cfg));
        let args = picture_args_exec(input, f, &path);
        let res = run(&args);
        assert(call_ensures(*run, (&args,), res));
        match res {
            Ok(u) => {
                assert(res == Ok::<(), E>(()));
            },
            Err(e) => return Err(e),
        }
        Some(path)
    } else {
        None
    };
    Ok(VisualPaths { spectrogram, waveform })
}

// ── Comparisons ──────────────────────────────────────────────────────────────

/// Pads the top picture with a 3-pixel amber line along its bottom edge and
/// stacks the bottom picture under it.
pub open spec fn stack_graph() -> Seq<char> {
    "[0:v]pad=iw:ih+3:0:0:color=0xe8913a[top];[top][1:v]vstack=inputs=2[out]"@
}

/// The per-pixel difference of the two pictures, its contrast raised so that
/// anything above about an eighth of the largest difference is at full
/// brightness, and its saturation boosted six times.
pub open spec fn diff_graph() -> Seq<char> {
    "[0:v][1:v]blend=all_mode=difference[diff];[diff]curves=all='0/0 0.12/1 1/1',hue=s=6[out]"@
}

/// The ffmpeg arguments that combine pictures `a` and `b` into `out` through
/// the filter graph `graph`.
pub open spec fn combine_args(a: Seq<char>, b: Seq<char>, graph: Seq<char>, out: Seq<char>) -> Seq<Seq<char>> {
    seq![
        "-hide_banner"@,
        "-i"@,
        a,
        "-i"@,
        b,
        "-filter_complex"@,
        graph,
        "-map"@,
        "[out]"@,
        "-y"@,
        out,
    ]
}

fn combine_args_exec(a: &String, b: &String, graph: &str, out: &String) -> (r: Vec<String>)
    ensures
        string_views(r@) == combine_args(a@, b@, graph@, out@),
{
    let mut v: Vec<String> = Vec::new();
    v.push(owned("-hide_banner"));
    v.push(owned("-i"));
    v.push(a.clone());
    v.push(owned("-i"));
    v.push(b.clone());
    v.push(owned("-filter_complex"));
    v.push(owned(graph));
    v.push(owned("-map"));
    v.push(owned("[out]"));
    v.push(owned("-y"));
    v.push(out.clone());
    assert(string_views(v@) =~= combine_args(a@, b@, graph@, out@));
    v
}

/// Stacks `top` over `bottom` into `out`, with an amber line between them.
pub fn generate_stacked<E, R: Fn(&Vec<String>) -> Result<(), E>>(
    run: &R,
    top: &String,
    bottom: &String,
    out: &String,
) -> (r: Result<(), E>)
    requires
        forall|a: &Vec<String>| run.requires((a,)),
    ensures
        ran(*run, combine_args(top@, bottom@, stack_graph(), out@), r),
{
    let args = combine_args_exec(
        top,
        bottom,
        "[0:v]pad=iw:ih+3:0:0:color=0xe8913a[top];[top][1:v]vstack=inputs=2[out]",
        out,
    );
    let res = run(&args);
    assert(call_ensures(*run, (&args,), res));
    res
}

/// Writes the contrast-amplified difference of `pre` and `post` into `out`:
/// dark where nothing changed, bright where it did.
pub fn generate_diff<E, R: Fn(&Vec<String>) -> Result<(), E>>(
    run: &R,
    pre: &String,
    post: &String,
    out: &String,
) -> (r: Result<(), E>)
    requires
        forall|a: &Vec<String>| run.requires((a,)),
    ensures
        ran(*run, combine_args(pre@, post@, diff_graph(), out@), r),
{
    let args = combine_args_exec(
        pre,
        post,
        "[0:v][1:v]blend=all_mode=difference[diff];[diff]curves=all='0/0 0.12/1 1/1',hue=s=6[out]",
        out,
    );
    let res = run(&args);
    assert(call_ensures(*run, (&args,), res));
    res
}

/// Applies `f` to the two paths when both are present; a failure of `f`
/// gives `None` as well.
pub fn pair_op<E, F: FnOnce(&String, &String) -> Result<String, E>>(
    a: &Option<String>,
    b: &Option<String>,
    f: F,
) -> (r: Option<String>)
    requires
        forall|x: &String, y: &String| f.requires((x, y)),
    ensures
        match (a, b) {
            (Some(x), Some(y)) => exists|res: Result<String, E>|
                call_ensures(f, (x, y), res) && match res {
                    Ok(p) => r == Some(p),
                    Err(_) => r is None,
                },
            _ => r is None,
        },
{
    match (a, b) {
        (Some(x), Some(y)) => {
            let res = f(x, y);
            assert(call_ensures(f, (x, y), res));
            match res {
                Ok(p) => Some(p),
                Err(_) => None,
            }
        },
        _ => None,
    }
}

/// `<out_dir>/<stem>_<name>.png`.
pub open spec fn comparison_path(out_dir: Seq<char>, stem: Seq<char>, name: Seq<char>) -> Seq<char> {
    path_join(out_dir, stem + "_"@ + name + ".png"@)
}

fn comparison_file(out_dir: &str, stem: &str, name: &str) -> (r: String)
    ensures
        r@ == comparison_path(out_dir@, stem@, name@),
{
    let mut n = chars_of(stem);
    n.push('_');
    extend(&mut n, &chars_of(name));
    extend(&mut n, &chars_of(".png"));
    proof {
        reveal_strlit("_");
        assert("_"@ =~= seq!['_']);
    }
    let file = string_of(&n);
    join_path(out_dir, file.as_str())
}

/// What one comparison picture came to: when both source pictures exist,
/// the picture at `out` if ffmpeg made it, else nothing; when either is
/// missing, nothing, and ffmpeg was not asked.
pub open spec fn comparison_made<E, R: Fn(&Vec<String>) -> Result<(), E>>(
    run: R,
    a: Option<String>,
    b: Option<String>,
    graph: Seq<char>,
    out: Seq<char>,
    result: Option<String>,
) -> bool {
    match (a, b) {
        (Some(x), Some(y)) => match result {
            Some(p) => p@ == out && ran(run, combine_args(x@, y@, graph, out), Ok(())),
            None => exists|e: E| ran(run, combine_args(x@, y@, graph, out), Err(e)),
        },
        _ => result is None,
    }
}

fn compare_one<E, R: Fn(&Vec<String>) -> Result<(), E>>(
    run: &R,
    a: &Option<String>,
    b: &Option<String>,
    out_dir: &str,
    stem: &str,
    name: &str,
    stacked: bool,
) -> (r: Option<String>)
    requires
        forall|v: &Vec<String>| run.requires((v,)),
    ensures
        comparison_made(
            *run,
            *a,
            *b,
            if stacked {
                stack_graph()
            } else {
                diff_graph()
            },
            comparison_path(out_dir@, stem@, name@),
            r,
        ),
{
    let out = comparison_file(out_dir, stem, name);
    let ghost graph = if stacked {
        stack_graph()
    } else {
        diff_graph()
    };
    let f = |x: &String, y: &String| -> (res: Result<String, E>)
        ensures
            match res {
                Ok(p) => p@ == out@ && ran(*run, combine_args(x@, y@, graph, out@), Ok(())),
                Err(e) => ran(*run, combine_args(x@, y@, graph, out@), Err(e)),
            },
        {
            let done = if stacked {
                generate_stacked(run, x, y, &out)
            } else {
                generate_diff(run, x, y, &out)
            };
            match done {
                Ok(u) => {
                    assert(done == Ok::<(), E>(()));
                    Ok(out.clone())
                },
                Err(e) => Err(e),
            }
        };
    pair_op(a, b, f)
}

/// Makes the stacked and difference comparisons of the spectrograms and of
/// the waveforms, as `<stem>_compare_spectrogram.png`,
/// `<stem>_compare_waveform.png`, `<stem>_diff_spectrogram.png` and
/// `<stem>_diff_waveform.png` in `out_dir`. A comparison is made only when
/// both its source pictures exist, and one that ffmpeg fails to make is
/// left out without failing the others.
pub fn generate_comparisons<E, R: Fn(&Vec<String>) -> Result<(), E>>(
    run: &R,
    pre: &VisualPaths,
    post: &VisualPaths,
    out_dir: &str,
    stem: &str,
) -> (r: ComparisonPaths)
    requires
        forall|v: &Vec<String>| run.requires((v,)),
    ensures
        comparison_made(
            *run,
            pre.spectrogram,
            post.spectrogram,
            stack_graph(),
            comparison_path(out_dir@, stem@, "compare_spectrogram"@),
            r.stacked_spectrogram,
        ),
        comparison_made(
            *run,
            pre.waveform,
            post.waveform,
            stack_graph(),
            comparison_path(out_dir@, stem@, "compare_waveform"@),
            r.stacked_waveform,
        ),
        comparison_made(
            *run,
            pre.spectrogram,
            post.spectrogram,
            diff_graph(),
            comparison_path(out_dir@, stem@, "diff_spectrogram"@),
            r.diff_spectrogram,
        ),
        comparison_made(
            *run,
            pre.waveform,
            post.waveform,
            diff_graph(),
            comparison_path(out_dir@, stem@, "diff_waveform"@),
            r.diff_waveform,
        ),
{
    let stacked_spectrogram = compare_one(
        run,
        &pre.spectrogram,
        &post.spectrogram,
        out_dir,
        stem,
        "compare_spectrogram",
        true,
    );
    let stacked_waveform = compare_one(
        run,
        &pre.waveform,
        &post.waveform,
        out_dir,
        stem,
        "compare_waveform",
        true,
    );
    let diff_spectrogram = compare_one(
        run,
        &pre.spectrogram,
        &post.spectrogram,
        out_dir,
        stem,
        "diff_spectrogram",
        false,
    );
    let diff_waveform = compare_one(
        run,
        &pre.waveform,
        &post.waveform,
        out_dir,
        stem,
        "diff_waveform",
        false,
    );
    ComparisonPaths { stacked_spectrogram, stacked_waveform, diff_spectrogram, diff_waveform }
}

} // verus!
