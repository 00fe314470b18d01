//! The worker agent's computations.
//!
//! The agent itself is a loop of network and process calls; what it
//! computes between them lives here: reading the coordinator's info sheet
//! into its four fields, substituting the job's files into the converter
//! command template, and naming the job's local input and output files.

use vstd::prelude::*;

verus! {

use vstd::string::StringExecFns;
use crate::registry::path_views;
use crate::text::{replaced, split_on, split_on_char, replace_all};
use crate::paths::{file_name_of, stem_of, joined_of, file_name, with_extension, join_path};

/// The coordinator's configuration, as the info sheet carries it.
pub struct JobInfo {
    /// The converter command template, with `[input]` and `[output]` holes.
    pub ffmpeg_command: String,
    /// The output extension, exactly as configured.
    pub file_extension: String,
    /// The completed-files directory on the coordinator host.
    pub completed_files_dir: String,
    /// The user name for the back-channel copy tool.
    pub rsync_user: String,
}

/// Line `i` of `body` with every occurrence of `marker` removed.
pub open spec fn info_field_of(body: Seq<char>, i: int, marker: Seq<char>) -> Seq<char> {
    replaced(split_on(body, '\n')[i], marker, ""@)
}

/// One word of the converter command, with the job's files substituted in.
pub open spec fn substituted(w: Seq<char>, input: Seq<char>, output: Seq<char>) -> Seq<char> {
    replaced(replaced(w, "[input]"@, input), "[output]"@, output)
}

/// Read the info sheet: the first four lines, each with its field marker
/// removed. A sheet of fewer than four lines yields `None`.
pub fn parse_info(body: &str) -> (r: Option<JobInfo>)
    ensures
        split_on(body@, '\n').len() < 4 ==> r is None,
        split_on(body@, '\n').len() >= 4 ==> (r matches Some(info) && {
            &&& info.ffmpeg_command@ == info_field_of(body@, 0, "ffmpeg: "@)
            &&& info.file_extension@ == info_field_of(body@, 1, "file_extension: "@)
            &&& info.completed_files_dir@ == info_field_of(body@, 2, "completed: "@)
            &&& info.rsync_user@ == info_field_of(body@, 3, "rsync_user: "@)
        }),
{
    let lines = split_on_char(body, '\n');
    if lines.len() < 4 {
        return None;
    }
    Some(
        JobInfo {
            ffmpeg_command: replace_all(lines[0].as_str(), "ffmpeg: ", ""),
            file_extension: replace_all(lines[1].as_str(), "file_extension: ", ""),
            completed_files_dir: replace_all(lines[2].as_str(), "completed: ", ""),
            rsync_user: replace_all(lines[3].as_str(), "rsync_user: ", ""),
        },
    )
}

/// The arguments handed to the converter: the template split on spaces,
/// its leading program name dropped, and the job's input and output files
/// substituted into each word.
pub fn converter_args(template: &str, input: &str, output: &str) -> (r: Vec<String>)
    ensures
        path_views(r@) == split_on(template@, ' ').skip(1).map_values(
            |w: Seq<char>| substituted(w, input@, output@),
        ),
{
    let words = split_on_char(template, ' ');
    let mut out: Vec<String> = Vec::new();
    let mut i: usize = 1;
    while i < words.len()
        invariant
            1 <= i <= words@.len(),
            path_views(words@) == split_on(template@, ' '),
            out@.len() == i - 1,
            forall|j: int| 0 <= j < i - 1
                ==> out@[j]@ == substituted(path_views(words@)[j + 1], input@, output@),
        decreases words@.len() - i,
    {
        let first = replace_all(words[i].as_str(), "[input]", input);
        out.push(replace_all(first.as_str(), "[output]", output));
        i += 1;
    }
    proof {
        assert(path_views(out@) =~= split_on(template@, ' ').skip(1).map_values(
            |w: Seq<char>| substituted(w, input@, output@),
        ));
    }
    out
}

/// Where the agent stages the job's input: the job's file name inside the
/// local jobs directory.
pub fn local_input_path(jobs_dir: &str, job_path: &str) -> (r: String)
    ensures
        r@ == joined_of(jobs_dir@, file_name_of(job_path@)),
{
    let name = file_name(job_path);
    join_path(jobs_dir, name.as_str())
}

/// Where the converter writes its output: the job's stem inside the local
/// jobs directory, with the configured extension appended as given.
pub fn local_output_path(jobs_dir: &str, job_path: &str, ext: &str) -> (r: String)
    ensures
        r@ == joined_of(jobs_dir@, stem_of(file_name_of(job_path@))) + ext@,
{
    let name = file_name(job_path);
    proof {
        reveal_strlit("");
    }
    let stem = with_extension(name.as_str(), "");
    let mut out = join_path(jobs_dir, stem.as_str());
    out.append(ext);
    out
}

} // verus!
