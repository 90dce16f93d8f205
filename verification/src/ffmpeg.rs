//! The ffmpeg binary: where it is found, how a run's outcome is judged, and
//! how a command line is shown. Spawning the process is the caller's part,
//! handed in as a function.
use vstd::prelude::*;
use crate::paths::{join_path, path_join, probed};
use crate::text::{
    chars_of, contains, extend, includes, join, join_with, opt_view, owned, string_of, string_views,
    trim, trimmed, views,
};

verus! {

/// The ffmpeg executable to run.
#[derive(Debug, Clone)]
pub struct Ffmpeg {
    pub path: String,
}

/// What a finished ffmpeg run left behind.
#[derive(Debug, Clone)]
pub struct FfmpegOutput {
    /// The process exited with status zero.
    pub success: bool,
    pub stdout: String,
    pub stderr: String,
}

/// Why ffmpeg could not be found or run.
#[derive(Debug, Clone)]
pub enum FfmpegError {
    /// Neither a bundled binary nor one on `PATH` exists.
    NotFound { message: String },
    /// The process could not be started.
    Spawn { context: String, cause: String },
    /// The process exited with a failure status.
    Failed { message: String },
}

/// The message shown when no ffmpeg can be found.
pub open spec fn not_found_text() -> Seq<char> {
    "ffmpeg not found.\n\nInstall it with your package manager:\n\nmacOS:   brew install ffmpeg\nUbuntu:  sudo apt install ffmpeg\nArch:    sudo pacman -S ffmpeg\nWindows: https://ffmpeg.org/download.html\n\nOr place the ffmpeg binary next to the mastacraf executable."@
}

/// Asking `search_path` may have answered `answer`.
pub open spec fn searched<W: Fn() -> Option<String>>(search_path: W, answer: Option<Seq<char>>) -> bool {
    exists|o: Option<String>| opt_view(o) == answer && call_ensures(search_path, (), o)
}

impl Ffmpeg {
    /// Locates ffmpeg: the binary `binary` (the platform's file name for
    /// ffmpeg) beside the executable, in `exe_dir` where that is known, when
    /// `is_file` reports it present, else what `search_path` finds on `PATH`.
    pub fn find<X: Fn(&String) -> bool, W: Fn() -> Option<String>>(
        exe_dir: Option<String>,
        binary: &str,
        is_file: &X,
        search_path: &W,
    ) -> (r: Result<Ffmpeg, FfmpegError>)
        requires
            forall|p: &String| is_file.requires((p,)),
            search_path.requires(()),
        ensures
            match r {
                Ok(f) => {
                    ||| (exe_dir matches Some(d) && f.path@ == path_join(d@, binary@) && probed(
                        *is_file,
                        f.path@,
                        true,
                    ))
                    ||| ((exe_dir matches Some(d) ==> probed(*is_file, path_join(d@, binary@), false))
                        && searched(*search_path, Some(f.path@)))
                },
                Err(FfmpegError::NotFound { message }) => (exe_dir matches Some(d) ==> probed(
                    *is_file,
                    path_join(d@, binary@),
                    false,
                )) && searched(*search_path, None) && message@ == not_found_text(),
                Err(_) => false,
            },
    {
        match &exe_dir {
            Some(d) => {
                let bundled = join_path(d.as_str(), binary);
                if is_file(&bundled) {
                    return Ok(Ffmpeg { path: bundled });
                }
                assert(probed(*is_file, bundled@, false));
            },
            None => {},
        }
        let found = search_path();
        assert(searched(*search_path, opt_view(found)));
        match found {
            Some(p) => Ok(Ffmpeg { path: p }),
            None => Err(
                FfmpegError::NotFound {
                    message: owned(
                        "ffmpeg not found.\n\nInstall it with your package manager:\n\nmacOS:   brew install ffmpeg\nUbuntu:  sudo apt install ffmpeg\nArch:    sudo pacman -S ffmpeg\nWindows: https://ffmpeg.org/download.html\n\nOr place the ffmpeg binary next to the mastacraf executable.",
                    ),
                },
            ),
        }
    }

    /// Runs ffmpeg through `spawn` (which starts the process at the given path
    /// with the given arguments and collects its output) and fails unless it
    /// exits successfully; the failure carries ffmpeg's trimmed error output.
    pub fn run_ok<R: Fn(&String, &Vec<String>) -> Result<FfmpegOutput, String>>(
        &self,
        spawn: &R,
        args: &Vec<String>,
    ) -> (r: Result<FfmpegOutput, FfmpegError>)
        requires
            spawn.requires((&self.path, args)),
        ensures
            exists|out: Result<FfmpegOutput, String>|
                call_ensures(*spawn, (&self.path, args), out) && match out {
                    Err(cause) => r matches Err(FfmpegError::Spawn { context, cause: c }) && context@
                        == "Failed to spawn ffmpeg at "@ + self.path@ && c == cause,
                    Ok(o) => if o.success {
                        r == Ok::<FfmpegOutput, FfmpegError>(o)
                    } else {
                        r matches Err(FfmpegError::Failed { message }) && message@
                            == "ffmpeg exited with an error:\n"@ + trim(o.stderr@)
                    },
                },
    {
        let out = spawn(&self.path, args);
        assert(call_ensures(*spawn, (&self.path, args), out));
        match out {
            Err(cause) => {
                let mut context = chars_of("Failed to spawn ffmpeg at ");
                extend(&mut context, &chars_of(self.path.as_str()));
                Err(FfmpegError::Spawn { context: string_of(&context), cause })
            },
            Ok(o) => {
                if o.success {
                    Ok(o)
                } else {
                    let mut m = chars_of("ffmpeg exited with an error:\n");
                    extend(&mut m, &trimmed(&chars_of(o.stderr.as_str())));
                    Err(FfmpegError::Failed { message: string_of(&m) })
                }
            },
        }
    }
}

/// An argument as the verbose log shows it: in double quotes when it holds a
/// comma or a space.
pub open spec fn shown_arg(a: Seq<char>) -> Seq<char> {
    if contains(a, seq![',']) || contains(a, seq![' ']) {
        seq!['"'] + a + seq!['"']
    } else {
        a
    }
}

/// The command line that the verbose log shows: the binary's path, then each
/// argument, separated by spaces.
pub open spec fn shown_command(path: Seq<char>, args: Seq<Seq<char>>) -> Seq<char> {
    join(seq![path] + args.map_values(|a: Seq<char>| shown_arg(a)), seq![' '])
}

/// The command line of a run as the verbose log shows it.
pub fn display_command(path: &str, args: &Vec<String>) -> (r: String)
    ensures
        r@ == shown_command(path@, string_views(args@)),
{
    let comma = chars_of(",");
    let space = chars_of(" ");
    proof {
        reveal_strlit(",");
        reveal_strlit(" ");
        assert(comma@ =~= seq![',']);
        assert(space@ =~= seq![' ']);
    }
    let ghost av = string_views(args@);
    let ghost shown = seq![path@] + av.map_values(|a: Seq<char>| shown_arg(a));
    let mut parts: Vec<Vec<char>> = Vec::new();
    parts.push(chars_of(path));
    assert(views(parts@) =~= shown.take(1));
    for i in 0..args.len()
        invariant
            av == string_views(args@),
            av.len() == args.len(),
            shown == seq![path@] + av.map_values(|a: Seq<char>| shown_arg(a)),
            comma@ == seq![','],
            space@ == seq![' '],
            views(parts@) == shown.take(i + 1),
    {
        let a = chars_of(args[i].as_str());
        let q: Vec<char> = if includes(&a, &comma) || includes(&a, &space) {
            let mut q: Vec<char> = Vec::new();
            q.push('"');
            extend(&mut q, &a);
            q.push('"');
            assert(q@ =~= seq!['"'] + a@ + seq!['"']);
            q
        } else {
            a
        };
        assert(av[i as int] == args@[i as int]@);
        assert(q@ == shown[i + 1]);
        let ghost before = views(parts@);
        parts.push(q);
        assert(views(parts@) =~= before.push(q@));
        assert(shown.take(i + 2) =~= shown.take(i + 1).push(shown[i + 1]));
    }
    assert(shown.take(args.len() + 1) =~= shown);
    string_of(&join_with(&parts, &space))
}

} // verus!
