//! Unit tests for the text and path helpers and the wire bodies.

use job_dispatch::agent;
use job_dispatch::dispatch;
use job_dispatch::paths;
use job_dispatch::text;

#[test]
fn file_name_basics() {
    assert_eq!(paths::file_name("/incoming/a.mp4"), "a.mp4");
    assert_eq!(paths::file_name("a.mp4"), "a.mp4");
    assert_eq!(paths::file_name("/a/b/"), "");
    assert_eq!(paths::file_name(""), "");
}

#[test]
fn with_extension_edges() {
    assert_eq!(paths::with_extension("a.mp4", "webm"), "a.webm");
    assert_eq!(paths::with_extension("a.b.c", "webm"), "a.b.webm");
    assert_eq!(paths::with_extension("abc", "webm"), "abc.webm");
    assert_eq!(paths::with_extension(".bashrc", "webm"), ".bashrc.webm");
    assert_eq!(paths::with_extension("a.mp4", ""), "a");
}

#[test]
fn strip_dots_removes_every_dot() {
    assert_eq!(paths::strip_dots(".webm"), "webm");
    assert_eq!(paths::strip_dots("webm"), "webm");
    assert_eq!(paths::strip_dots("..w.ebm"), "webm");
    assert_eq!(paths::strip_dots(""), "");
}

#[test]
fn join_path_separators() {
    assert_eq!(paths::join_path("/done", "a.webm"), "/done/a.webm");
    assert_eq!(paths::join_path("/done/", "a.webm"), "/done/a.webm");
    assert_eq!(paths::join_path("", "a.webm"), "/a.webm");
}

#[test]
fn expected_output_path_formula() {
    assert_eq!(
        paths::expected_output_path("/completed", "/incoming/video.mp4", ".webm"),
        "/completed/video.webm"
    );
    assert_eq!(
        paths::expected_output_path("/completed/", "clip.avi", "mkv"),
        "/completed/clip.mkv"
    );
}

#[test]
fn replace_all_is_left_to_right() {
    assert_eq!(text::replace_all("aaa", "aa", "b"), "ba");
    assert_eq!(text::replace_all("abcabc", "b", "xx"), "axxcaxxc");
    assert_eq!(text::replace_all("abc", "", "x"), "abc");
    assert_eq!(text::replace_all("abc", "zz", "x"), "abc");
    // Cross-check against the standard library's replace.
    assert_eq!(
        text::replace_all("run [input] now [input]", "[input]", "/j/a"),
        "run [input] now [input]".replace("[input]", "/j/a")
    );
}

#[test]
fn split_on_char_pieces() {
    let pieces = text::split_on_char("a,b,,c", ',');
    assert_eq!(pieces, vec!["a", "b", "", "c"]);
    assert_eq!(text::split_on_char("", ','), vec![""]);
    assert_eq!(text::split_on_char("x\n", '\n'), vec!["x", ""]);
}

#[test]
fn join_lines_round() {
    let rows = vec![String::from("x"), String::from("y")];
    assert_eq!(text::join_lines(&rows), "x\ny\n");
    assert_eq!(text::join_lines(&Vec::new()), "");
}

#[test]
fn info_body_four_lines() {
    let body = dispatch::info("ffmpeg -i [input] [output]", ".webm", "/completed", "copyuser");
    assert_eq!(
        body,
        "ffmpeg: ffmpeg -i [input] [output]\nfile_extension: .webm\ncompleted: /completed\nrsync_user: copyuser\n"
    );
}

#[test]
fn default_template_has_both_holes() {
    let t = dispatch::default_ffmpeg_command();
    assert_eq!(t, "ffmpeg -i [input] -f webm [output].webm");
}

#[test]
fn parse_info_round_trip() {
    let body = dispatch::info("ffmpeg -i [input] [output]", ".webm", "/completed", "copyuser");
    let info = agent::parse_info(&body).unwrap();
    assert_eq!(info.ffmpeg_command, "ffmpeg -i [input] [output]");
    assert_eq!(info.file_extension, ".webm");
    assert_eq!(info.completed_files_dir, "/completed");
    assert_eq!(info.rsync_user, "copyuser");
}

#[test]
fn parse_info_short_body() {
    assert!(agent::parse_info("only\nthree\nlines").is_none());
}

#[test]
fn converter_args_substitution() {
    let args = agent::converter_args(
        "ffmpeg -i [input] -f webm [output].webm",
        "/jobs/a.mp4",
        "/jobs/a",
    );
    assert_eq!(args, vec!["-i", "/jobs/a.mp4", "-f", "webm", "/jobs/a.webm"]);
}

#[test]
fn agent_local_paths() {
    assert_eq!(
        agent::local_input_path("/w/jobs", "/incoming/a.mp4"),
        "/w/jobs/a.mp4"
    );
    assert_eq!(
        agent::local_output_path("/w/jobs", "/incoming/a.mp4", ".webm"),
        "/w/jobs/a.webm"
    );
}

#[test]
fn register_body_is_a_urn_of_the_new_worker() {
    let mut reg = job_dispatch::registry::Registry::new(60);
    let body = dispatch::register(&mut reg, 0);
    let parsed = uuid::Uuid::parse_str(&body).expect("register must answer a parsable uuid");
    assert_eq!(body, parsed.urn().to_string());
    assert!(reg.is_known(parsed.as_u128()));

    // A second registration names a different worker.
    let body2 = dispatch::register(&mut reg, 0);
    assert_ne!(body, body2);
}
