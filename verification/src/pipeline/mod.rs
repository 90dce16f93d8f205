//! The mastering pipeline: analysis, processing and pictures, and where a
//! master run puts its files.
pub mod analyze;
pub mod process;
pub mod visualize;

use vstd::prelude::*;
use crate::paths::{
    file_name, file_stem, join_path, lemma_file_name_of_join, path_join, path_stem, plain_name,
};
use crate::pipeline::process::{extension_for, output_extension};
use crate::pipeline::visualize::ComparisonPaths;
use crate::text::{chars_of, extend, opt_view, owned, string_of, string_views};

verus! {

/// Where a master run writes its files.
#[derive(Debug, Clone)]
pub struct MasterPaths {
    /// The input's file stem, or `output`; it names the output folder and files.
    pub stem: String,
    /// `<base>/<stem>`.
    pub out_dir: String,
    /// `<out_dir>/<stem><suffix>.<ext>`.
    pub out_path: String,
    /// `<out_dir>/<stem><suffix>_report.json`.
    pub report_path: String,
}

/// The stem that names a run's output folder: the input's file stem, or
/// `output` when it has none.
pub open spec fn master_stem(input: Seq<char>) -> Seq<char> {
    match file_stem(input) {
        Some(s) => s,
        None => "output"@,
    }
}

/// The folder of a master run: the input's stem under the chosen base
/// directory, `mastered` by default.
pub open spec fn master_dir(input: Seq<char>, base: Option<Seq<char>>) -> Seq<char> {
    let b = match base {
        Some(b) => b,
        None => "mastered"@,
    };
    path_join(b, master_stem(input))
}

/// The mastered audio file: `<stem><suffix>.<extension>` in the output folder.
pub open spec fn master_file(input: Seq<char>, base: Option<Seq<char>>, suffix: Seq<char>, format: Seq<char>) -> Seq<char> {
    path_join(master_dir(input, base), master_stem(input) + suffix + "."@ + extension_for(format))
}

/// The JSON report: `<stem><suffix>_report.json` in the output folder.
pub open spec fn report_file(input: Seq<char>, base: Option<Seq<char>>, suffix: Seq<char>) -> Seq<char> {
    path_join(master_dir(input, base), master_stem(input) + suffix + "_report.json"@)
}

/// The files of a master run of `input`, under `base` (or `mastered`), with
/// `suffix` after the stem of the audio and report files and the extension
/// of the output `format`.
pub fn master_paths(input: &str, base: Option<String>, suffix: &str, format: &str) -> (r: MasterPaths)
    ensures
        r.stem@ == master_stem(input@),
        r.out_dir@ == master_dir(input@, opt_view(base)),
        r.out_path@ == master_file(input@, opt_view(base), suffix@, format@),
        r.report_path@ == report_file(input@, opt_view(base), suffix@),
{
    let stem = match path_stem(input) {
        Some(s) => s,
        None => owned("output"),
    };
    let b = match base {
        Some(b) => b,
        None => owned("mastered"),
    };
    let out_dir = join_path(b.as_str(), stem.as_str());
    let ext = output_extension(format);
    let mut audio = chars_of(stem.as_str());
    extend(&mut audio, &chars_of(suffix));
    audio.push('.');
    extend(&mut audio, &chars_of(ext.as_str()));
    proof {
        reveal_strlit(".");
        assert("."@ =~= seq!['.']);
    }
    let audio_name = string_of(&audio);
    let out_path = join_path(out_dir.as_str(), audio_name.as_str());
    let mut report = chars_of(stem.as_str());
    extend(&mut report, &chars_of(suffix));
    extend(&mut report, &chars_of("_report.json"));
    let report_name = string_of(&report);
    let report_path = join_path(out_dir.as_str(), report_name.as_str());
    MasterPaths { stem, out_dir, out_path, report_path }
}

/// A master run writes into a folder named after the input's stem, directly
/// under the base directory, and the audio file `<stem><suffix>.<ext>` and
/// the report `<stem><suffix>_report.json` lie in that folder: the suffix and
/// the output format name the files, never the folder. (The stem must be a
/// plain name and the suffix hold no separator, as for any ordinary input.)
pub proof fn law_outputs_in_stem_folder(
    input: Seq<char>,
    base: Option<Seq<char>>,
    suffix: Seq<char>,
    format: Seq<char>,
)
    requires
        plain_name(master_stem(input)),
        forall|i: int| 0 <= i < suffix.len() ==> #[trigger] suffix[i] != '/',
    ensures
        file_name(master_dir(input, base)) == Some(master_stem(input)),
        file_name(master_file(input, base, suffix, format)) == Some(
            master_stem(input) + suffix + "."@ + extension_for(format),
        ),
        file_name(report_file(input, base, suffix)) == Some(
            master_stem(input) + suffix + "_report.json"@,
        ),
        master_file(input, base, suffix, format) == path_join(
            master_dir(input, base),
            master_stem(input) + suffix + "."@ + extension_for(format),
        ),
        report_file(input, base, suffix) == path_join(
            master_dir(input, base),
            master_stem(input) + suffix + "_report.json"@,
        ),
{
    let stem = master_stem(input);
    let b = match base {
        Some(b) => b,
        None => "mastered"@,
    };
    lemma_file_name_of_join(b, stem);
    reveal_strlit(".");
    reveal_strlit("_report.json");
    reveal_strlit("flac");
    reveal_strlit("mp3");
    reveal_strlit("m4a");
    reveal_strlit("wav");
    let ext = extension_for(format);
    let audio = stem + suffix + "."@ + ext;
    let report = stem + suffix + "_report.json"@;
    assert forall|i: int| 0 <= i < audio.len() implies #[trigger] audio[i] != '/' by {
        if i < stem.len() {
            assert(audio[i] == stem[i]);
        } else if i < stem.len() + suffix.len() {
            assert(audio[i] == suffix[i - stem.len()]);
        } else if i == stem.len() + suffix.len() {
            assert(audio[i] == '.');
        } else {
            assert(audio[i] == ext[i - stem.len() - suffix.len() - 1]);
        }
    }
    assert forall|i: int| 0 <= i < report.len() implies #[trigger] report[i] != '/' by {
        if i < stem.len() {
            assert(report[i] == stem[i]);
        } else if i < stem.len() + suffix.len() {
            assert(report[i] == suffix[i - stem.len()]);
        } else {
            assert(report[i] == "_report.json"@[i - stem.len() - suffix.len()]);
        }
    }
    assert(audio.len() >= 5);
    assert(report.len() >= 13);
    lemma_file_name_of_join(master_dir(input, base), audio);
    lemma_file_name_of_join(master_dir(input, base), report);
}

/// The comparison pictures that were made, in the order they are listed.
pub open spec fn comparison_names(c: ComparisonPaths) -> Seq<Seq<char>> {
    let a: Seq<Seq<char>> = if c.stacked_spectrogram is Some {
        seq!["compare_spectrogram.png"@]
    } else {
        Seq::empty()
    };
    let b = if c.stacked_waveform is Some {
        a.push("compare_waveform.png"@)
    } else {
        a
    };
    let d = if c.diff_spectrogram is Some {
        b.push("diff_spectrogram.png"@)
    } else {
        b
    };
    if c.diff_waveform is Some {
        d.push("diff_waveform.png"@)
    } else {
        d
    }
}

/// The names under which the comparisons that were made are announced, in
/// the order stacked spectrogram, stacked waveform, difference spectrogram,
/// difference waveform.
pub fn generated_comparisons(c: &ComparisonPaths) -> (r: Vec<String>)
    ensures
        string_views(r@) == comparison_names(*c),
{
    let mut v: Vec<String> = Vec::new();
    if c.stacked_spectrogram.is_some() {
        v.push(owned("compare_spectrogram.png"));
    }
    let ghost a = string_views(v@);
    if c.stacked_waveform.is_some() {
        v.push(owned("compare_waveform.png"));
        assert(string_views(v@) =~= a.push("compare_waveform.png"@));
    }
    let ghost b = string_views(v@);
    if c.diff_spectrogram.is_some() {
        v.push(owned("diff_spectrogram.png"));
        assert(string_views(v@) =~= b.push("diff_spectrogram.png"@));
    }
    let ghost d = string_views(v@);
    if c.diff_waveform.is_some() {
        v.push(owned("diff_waveform.png"));
        assert(string_views(v@) =~= d.push("diff_waveform.png"@));
    }
    assert(string_views(v@) =~= comparison_names(*c));
    v
}

} // verus!

verus! {

/// A master run is named by the input's whole file stem, as `std::path`
/// splits it: everything before the last `.` of the file name. So
/// `a/song.v2.wav` is mastered into `<base>/song.v2/`, apart from
/// `a/song.v3.wav`; and in general the stem is the input's `file_stem` when
/// it has one.
pub proof fn law_run_named_by_file_stem(
    dir: Seq<char>,
    stem: Seq<char>,
    ext: Seq<char>,
    base: Option<Seq<char>>,
    input: Seq<char>,
)
    requires
        crate::paths::plain_name(stem + seq!['.'] + ext),
        stem.len() > 0,
        forall|k: int| 0 <= k < ext.len() ==> #[trigger] ext[k] != '.',
    ensures
        master_stem(path_join(dir, stem + seq!['.'] + ext)) == stem,
        master_dir(path_join(dir, stem + seq!['.'] + ext), base) == path_join(
            match base {
                Some(b) => b,
                None => "mastered"@,
            },
            stem,
        ),
        file_stem(input) matches Some(s) ==> master_stem(input) == s,
{
    crate::paths::lemma_stem_of_join(dir, stem, ext);
}

} // verus!
