//! The session bookkeeping behind the commands the UI calls: files named on
//! the command line, input device facts, and picking names for exported files.

use vstd::prelude::*;

use crate::text::{decimal, decimal_text};

verus! {

/// The final component of `path` as `std::path::Path::file_name` reads it,
/// if there is one. This depends on the path text alone (under the path
/// syntax of the platform the program is built for).
pub uninterp spec fn file_name_of(path: Seq<char>) -> Option<Seq<char>>;

/// The final component of `path` without its extension, as
/// `std::path::Path::file_stem` reads it.
pub uninterp spec fn file_stem_of(path: Seq<char>) -> Option<Seq<char>>;

/// `path` without its final component, as `std::path::Path::parent` reads it.
pub uninterp spec fn parent_of(path: Seq<char>) -> Option<Seq<char>>;

/// `name` appended to `base`, as `std::path::Path::join` builds it.
pub uninterp spec fn joined(base: Seq<char>, name: Seq<char>) -> Seq<char>;

/// `Path::file_name` of a UTF-8 path; its result is a piece of the path and
/// so is UTF-8 too. Claims only that the result is the one `file_name_of`
/// names.
#[verifier::external_body]
fn path_file_name(path: &str) -> (name: Option<String>)
    ensures
        match name {
            Some(n) => file_name_of(path@) == Some(n@),
            None => file_name_of(path@) is None,
        },
{
    std::path::Path::new(path).file_name().and_then(|n| n.to_str()).map(|n| n.to_string())
}

/// `Path::file_stem` of a UTF-8 path. Claims only that the result is the one
/// `file_stem_of` names.
#[verifier::external_body]
fn path_file_stem(path: &str) -> (stem: Option<String>)
    ensures
        match stem {
            Some(s) => file_stem_of(path@) == Some(s@),
            None => file_stem_of(path@) is None,
        },
{
    std::path::Path::new(path).file_stem().and_then(|s| s.to_str()).map(|s| s.to_string())
}

/// `Path::parent` of a UTF-8 path. Claims only that the result is the one
/// `parent_of` names.
#[verifier::external_body]
fn path_parent(path: &str) -> (parent: Option<String>)
    ensures
        match parent {
            Some(p) => parent_of(path@) == Some(p@),
            None => parent_of(path@) is None,
        },
{
    std::path::Path::new(path).parent().and_then(|p| p.to_str()).map(|p| p.to_string())
}

/// `Path::join` of two UTF-8 paths, which is UTF-8 as well. Claims only that
/// the result is the one `joined` names.
#[verifier::external_body]
fn path_join(base: &str, name: &str) -> (path: String)
    ensures
        path@ == joined(base@, name@),
{
    std::path::Path::new(base).join(name).to_string_lossy().to_string()
}

/// An argument that starts with `-` is an option, not a file.
pub open spec fn is_option(arg: Seq<char>) -> bool {
    arg.len() > 0 && arg[0] == '-'
}

fn starts_with_dash(arg: &String) -> (b: bool)
    ensures
        b == is_option(arg@),
        b == (arg@.len() > 0 && arg@[0] == '-'),
{
    let text = arg.as_str();
    text.unicode_len() > 0 && text.get_char(0) == '-'
}

/// The arguments kept as startup files: those that are not options and that
/// `is_file` marks as naming a file.
pub open spec fn kept_files(args: Seq<String>, is_file: Seq<bool>) -> Seq<String>
    decreases args.len(),
{
    if args.len() == 0 {
        Seq::empty()
    } else {
        let rest = kept_files(args.drop_last(), is_file.take(args.len() - 1));
        if !is_option(args.last()@) && is_file[args.len() - 1] {
            rest.push(args.last())
        } else {
            rest
        }
    }
}

/// The startup files are exactly the arguments that `is_file` accepts and
/// whose first character is not `-`: each such argument is kept, wherever
/// else a `-` may stand in it, and nothing else is kept. Keeping never makes
/// the list longer than the arguments.
pub proof fn lemma_kept_files_members(args: Seq<String>, is_file: Seq<bool>)
    requires
        is_file.len() == args.len(),
    ensures
        kept_files(args, is_file).len() <= args.len(),
        forall|i: int|
            0 <= i < args.len() && is_file[i] && (args[i]@.len() == 0 || args[i]@[0] != '-')
                ==> kept_files(args, is_file).contains(#[trigger] args[i]),
        forall|k: int|
            #![trigger kept_files(args, is_file)[k]]
            0 <= k < kept_files(args, is_file).len() ==> exists|i: int|
                #![trigger args[i]]
                0 <= i < args.len() && is_file[i] && (args[i]@.len() == 0 || args[i]@[0] != '-')
                    && kept_files(args, is_file)[k] == args[i],
    decreases args.len(),
{
    if args.len() > 0 {
        let n = args.len() - 1;
        let front = args.drop_last();
        let answers = is_file.take(n);
        lemma_kept_files_members(front, answers);
        let rest = kept_files(front, answers);
        let all = kept_files(args, is_file);
        assert forall|i: int|
            0 <= i < args.len() && is_file[i] && (args[i]@.len() == 0 || args[i]@[0] != '-')
                implies all.contains(#[trigger] args[i]) by {
            if i < n {
                assert(front[i] == args[i] && answers[i] == is_file[i]);
                let j = choose|j: int| 0 <= j < rest.len() && rest[j] == front[i];
                assert(all[j] == args[i]);
            } else {
                assert(all[all.len() - 1] == args[i]);
            }
        }
        assert forall|k: int| #![trigger all[k]] 0 <= k < all.len() implies exists|i: int|
            #![trigger args[i]]
            0 <= i < args.len() && is_file[i] && (args[i]@.len() == 0 || args[i]@[0] != '-')
                && all[k] == args[i] by {
            if k < rest.len() {
                assert(all[k] == rest[k]);
                let i = choose|i: int|
                    0 <= i < front.len() && answers[i] && (front[i]@.len() == 0 || front[i]@[0]
                        != '-') && rest[k] == front[i];
                assert(args[i] == front[i] && is_file[i] == answers[i]);
            } else {
                assert(all[k] == args[n]);
            }
        }
    }
}

/// Files given on the command line (`zwaveEditor a.wav b.wav`), pending pickup
/// by the UI on startup.
pub struct StartupFiles(pub Vec<String>);

impl StartupFiles {
    pub fn new() -> (files: Self)
        ensures
            files.0@ == Seq::<String>::empty(),
    {
        StartupFiles(Vec::new())
    }

    /// Keeps the arguments that are not options and that name a file, as
    /// `is_file` says, in their order.
    #[verifier::spinoff_prover]
    pub fn from_checked_args(args: Vec<String>, is_file: &Vec<bool>) -> (files: Self)
        requires
            is_file@.len() == args@.len(),
        ensures
            files.0@ == kept_files(args@, is_file@),
            forall|i: int|
                0 <= i < args@.len() && is_file@[i] && (args@[i]@.len() == 0 || args@[i]@[0]
                    != '-') ==> files.0@.contains(#[trigger] args@[i]),
            forall|k: int|
                0 <= k < files.0@.len() ==> (#[trigger] files.0@[k])@.len() == 0
                    || files.0@[k]@[0] != '-',
    {
        let mut kept: Vec<String> = Vec::new();
        let mut i: usize = 0;
        while i < args.len()
            invariant
                i <= args@.len() == is_file@.len(),
                kept@ == kept_files(args@.take(i as int), is_file@.take(i as int)),
            decreases args@.len() - i,
        {
            let arg = &args[i];
            assert(args@.take(i + 1).drop_last() =~= args@.take(i as int));
            assert(is_file@.take(i + 1).take(i as int) =~= is_file@.take(i as int));
            if !starts_with_dash(arg) && is_file[i] {
                kept.push(arg.clone());
            }
            i += 1;
        }
        assert(args@.take(args@.len() as int) =~= args@);
        assert(is_file@.take(is_file@.len() as int) =~= is_file@);
        proof {
            lemma_kept_files_members(args@, is_file@);
            assert forall|k: int| 0 <= k < kept@.len() implies (#[trigger] kept@[k])@.len() == 0
                || kept@[k]@[0] != '-' by {
                assert(kept@[k] == kept_files(args@, is_file@)[k]);
            }
        }
        StartupFiles(kept)
    }

    /// Keeps the arguments (program name excluded) that are not options and
    /// that `is_file` says name a file, in their order. `is_file` is asked
    /// about each argument that is not an option, as it is given.
    pub fn from_args<F: Fn(&str) -> bool>(args: Vec<String>, is_file: F) -> (files: Self)
        requires
            forall|p: &str| is_file.requires((p,)),
        ensures
            exists|answers: Seq<bool>|
                {
                    &&& answers.len() == args@.len()
                    &&& forall|i: int|
                        0 <= i < args@.len() && !is_option(args@[i]@) ==> #[trigger] answered(
                            is_file,
                            args@[i]@,
                            answers[i],
                        )
                    &&& files.0@ == kept_files(args@, answers)
                },
            forall|k: int|
                0 <= k < files.0@.len() ==> (#[trigger] files.0@[k])@.len() == 0
                    || files.0@[k]@[0] != '-',
    {
        let mut answers: Vec<bool> = Vec::new();
        let mut i: usize = 0;
        while i < args.len()
            invariant
                forall|p: &str| is_file.requires((p,)),
                i <= args@.len(),
                answers@.len() == i,
                forall|j: int|
                    0 <= j < i && !is_option(args@[j]@) ==> #[trigger] answered(
                        is_file,
                        args@[j]@,
                        answers@[j],
                    ),
            decreases args@.len() - i,
        {
            let found = if starts_with_dash(&args[i]) {
                false
            } else {
                let answer = is_file(args[i].as_str());
                assert(answered(is_file, args@[i as int]@, answer));
                answer
            };
            answers.push(found);
            assert(forall|j: int|
                0 <= j < i && !is_option(args@[j]@) ==> #[trigger] answered(
                    is_file,
                    args@[j]@,
                    answers@[j],
                ));
            i += 1;
        }
        let ghost given = args@;
        let files = Self::from_checked_args(args, &answers);
        assert(answers@.len() == given.len() && files.0@ == kept_files(given, answers@));
        files
    }

    /// Returns the startup files once, then forgets them, so a reload does not
    /// reopen everything.
    pub fn take(&mut self) -> (files: Vec<String>)
        ensures
            files@ == old(self).0@,
            final(self).0@ == Seq::<String>::empty(),
    {
        let mut files: Vec<String> = Vec::new();
        std::mem::swap(&mut files, &mut self.0);
        files
    }
}

impl Default for StartupFiles {
    fn default() -> (files: Self)
        ensures
            files.0@ == Seq::<String>::empty(),
    {
        StartupFiles::new()
    }
}

/// What the default input device records with.
pub struct InputDeviceInfo {
    pub sample_rate: u32,
    pub channels: usize,
}

/// The file name of `path`, or `untitled` when it has none.
pub fn file_name(path: &str) -> (name: String)
    ensures
        name@ == match file_name_of(path@) {
            Some(n) => n,
            None => "untitled"@,
        },
{
    match path_file_name(path) {
        Some(name) => name,
        None => String::from_str("untitled"),
    }
}

/// The stem used for numbered alternatives to `path`.
pub open spec fn stem_or_track(path: Seq<char>) -> Seq<char> {
    match file_stem_of(path) {
        Some(s) => s,
        None => "track"@,
    }
}

/// The directory numbered alternatives to `path` go in.
pub open spec fn parent_or_empty(path: Seq<char>) -> Seq<char> {
    match parent_of(path) {
        Some(p) => p,
        None => Seq::empty(),
    }
}

/// Where a clip named `clip_name` is exported inside `directory`: its stem
/// (or `track`) with a `.wav` extension.
pub fn track_file_path(directory: &str, clip_name: &str) -> (path: String)
    ensures
        path@ == joined(directory@, stem_or_track(clip_name@) + ".wav"@),
{
    let mut name = match path_file_stem(clip_name) {
        Some(s) => s,
        None => String::from_str("track"),
    };
    name.append(".wav");
    path_join(directory, name.as_str())
}

/// The `suffix`-th alternative name for `path`: `stem-suffix.wav` next to it.
pub open spec fn numbered_path(path: Seq<char>, suffix: nat) -> Seq<char> {
    joined(parent_or_empty(path), stem_or_track(path) + "-"@ + decimal(suffix) + ".wav"@)
}

/// The `k`-th path `unique_path` asks about: `candidate` itself first, then
/// its alternatives numbered from 2.
pub open spec fn probed_path(candidate: Seq<char>, k: int) -> Seq<char> {
    if k == 0 {
        candidate
    } else {
        numbered_path(candidate, (k + 1) as nat)
    }
}

/// How many paths `unique_path` may ask about: the candidate and its
/// alternatives numbered 2 to 999.
pub open spec fn probe_limit() -> int {
    999
}

/// `taken` is a complete run of answers: all "taken" but the last, which is
/// "free" unless every path that may be asked about was taken.
pub open spec fn complete_probe(taken: Seq<bool>) -> bool {
    &&& 1 <= taken.len() <= probe_limit()
    &&& forall|i: int| 0 <= i < taken.len() - 1 ==> #[trigger] taken[i]
    &&& taken.last() ==> taken.len() == probe_limit()
}

/// The path picked after the answers `taken`: the first one answered free,
/// or none when all were taken.
pub open spec fn picked_path(candidate: Seq<char>, taken: Seq<bool>) -> Option<Seq<char>> {
    if taken.len() > 0 && !taken.last() {
        Some(probed_path(candidate, taken.len() - 1))
    } else {
        None
    }
}

/// `is_taken` answered `answer` for some string whose text is `path`.
pub open spec fn answered<E: Fn(&str) -> bool>(is_taken: E, path: Seq<char>, answer: bool) -> bool {
    exists|p: &str| p@ == path && #[trigger] is_taken.ensures((p,), answer)
}

/// The `k`-th path `unique_path` asks about, built as it is asked.
pub fn probe_path(candidate: &String, k: u64) -> (path: String)
    requires
        k < probe_limit(),
    ensures
        path@ == probed_path(candidate@, k as int),
{
    if k == 0 {
        return candidate.clone();
    }
    let mut name = match path_file_stem(candidate.as_str()) {
        Some(s) => s,
        None => String::from_str("track"),
    };
    let parent = match path_parent(candidate.as_str()) {
        Some(p) => p,
        None => String::new(),
    };
    name.append("-");
    let digits = decimal_text(k + 1);
    name.append(digits.as_str());
    name.append(".wav");
    path_join(parent.as_str(), name.as_str())
}

/// The path to write after asking about the paths in turn and getting the
/// answers `taken` (`true` for a path that is taken): the first free one, or
/// `None` when all were taken.
pub fn pick_path(candidate: &String, taken: &Vec<bool>) -> (path: Option<String>)
    requires
        complete_probe(taken@),
    ensures
        match path {
            Some(p) => picked_path(candidate@, taken@) == Some(p@),
            None => picked_path(candidate@, taken@) is None,
        },
{
    let last: usize = taken.len() - 1;
    if taken[last] {
        None
    } else {
        Some(probe_path(candidate, last as u64))
    }
}

/// Never silently overwrite: `mix.wav` becomes `mix-2.wav` if it is taken,
/// then `mix-3.wav`, and so on up to `mix-999.wav`. `is_taken` says whether a
/// path is taken; the paths are asked about in that order until one is free,
/// and that one is returned. When all are taken there is no such path, and
/// the result is `None`.
pub fn unique_path<E: Fn(&str) -> bool>(candidate: String, is_taken: E) -> (path: Option<String>)
    requires
        forall|p: &str| is_taken.requires((p,)),
    ensures
        exists|taken: Seq<bool>|
            {
                &&& complete_probe(taken)
                &&& forall|k: int|
                    0 <= k < taken.len() ==> #[trigger] answered(
                        is_taken,
                        probed_path(candidate@, k),
                        taken[k],
                    )
                &&& match path {
                    Some(p) => picked_path(candidate@, taken) == Some(p@),
                    None => picked_path(candidate@, taken) is None,
                }
            },
{
    let mut taken: Vec<bool> = Vec::new();
    let mut k: u64 = 0;
    loop
        invariant
            forall|p: &str| is_taken.requires((p,)),
            k < probe_limit(),
            taken@.len() == k,
            forall|i: int| 0 <= i < k ==> #[trigger] taken@[i],
            forall|i: int|
                0 <= i < k ==> #[trigger] answered(is_taken, probed_path(candidate@, i), taken@[i]),
        decreases probe_limit() - k,
    {
        let next = probe_path(&candidate, k);
        let found = is_taken(next.as_str());
        assert(answered(is_taken, probed_path(candidate@, k as int), found));
        taken.push(found);
        assert(forall|i: int|
            0 <= i < k ==> #[trigger] answered(is_taken, probed_path(candidate@, i), taken@[i]));
        if !found || k + 1 == 999 {
            assert(complete_probe(taken@));
            return pick_path(&candidate, &taken);
        }
        k += 1;
    }
}

} // verus!
