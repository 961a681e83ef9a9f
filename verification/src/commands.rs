use vstd::prelude::*;
use crate::decimal::decimal;
use crate::paths::{fx_name_spec, frame_path_spec, lemma_fx_name_of_frame_file, no_underscore};

verus! {

/// `ffmpeg` line that encodes the frames `{dir}/{name}_%d.png` at 30 frames
/// per second into `{vid}.mp4`.
pub open spec fn encode_frames_command_spec(dir: Seq<char>, name: Seq<char>, vid: Seq<char>) -> Seq<
    char,
> {
    "ffmpeg -y -framerate 30 -i "@ + dir + "/"@ + name + "_%d.png -c:v libx264 -pix_fmt yuv420p "@
        + vid + ".mp4"@
}

/// File pattern of the frames extracted from a video: `{short}_%03d.png`.
pub open spec fn extracted_frame_pattern(short: Seq<char>) -> Seq<char> {
    short + "_%03d.png"@
}

/// File pattern of the processed frames: `{short}_fx_%03d.png`.
pub open spec fn fx_frame_pattern(short: Seq<char>) -> Seq<char> {
    short + "_fx_%03d.png"@
}

/// `ffmpeg` line that splits `{vid}` into frames
/// `{dir}/{short}_%03d.png` at 30 frames per second.
pub open spec fn extract_frames_command_spec(vid: Seq<char>, dir: Seq<char>, short: Seq<char>) -> Seq<
    char,
> {
    "ffmpeg -i "@ + vid + " -vf fps=30 "@ + dir + "/"@ + extracted_frame_pattern(short)
}

/// `ffmpeg` line that encodes the processed frames
/// `{dir}/{short}_fx_%03d.png` at 30 frames per second into `{out}.mp4`.
pub open spec fn encode_fx_frames_command_spec(dir: Seq<char>, short: Seq<char>, out: Seq<char>) -> Seq<
    char,
> {
    "ffmpeg -y -framerate 30 -i "@ + dir + "/"@ + fx_frame_pattern(short)
        + " -c:v libx264 -pix_fmt yuv420p "@ + out + ".mp4"@
}

/// Builds `encode_frames_command_spec(dir, name, vid)`.
pub fn encode_frames_command(dir: &str, name: &str, vid: &str) -> (c: String)
    ensures
        c@ == encode_frames_command_spec(dir@, name@, vid@),
{
    let mut c = String::new();
    c.append("ffmpeg -y -framerate 30 -i ");
    c.append(dir);
    c.append("/");
    c.append(name);
    c.append("_%d.png -c:v libx264 -pix_fmt yuv420p ");
    c.append(vid);
    c.append(".mp4");
    assert(c@ =~= encode_frames_command_spec(dir@, name@, vid@));
    c
}

/// Builds `extract_frames_command_spec(vid, dir, short)`.
pub fn extract_frames_command(vid: &str, dir: &str, short: &str) -> (c: String)
    ensures
        c@ == extract_frames_command_spec(vid@, dir@, short@),
{
    let mut c = String::new();
    c.append("ffmpeg -i ");
    c.append(vid);
    c.append(" -vf fps=30 ");
    c.append(dir);
    c.append("/");
    c.append(short);
    c.append("_%03d.png");
    assert(c@ =~= extract_frames_command_spec(vid@, dir@, short@));
    c
}

/// Builds `encode_fx_frames_command_spec(dir, short, out)`.
pub fn encode_fx_frames_command(dir: &str, short: &str, out: &str) -> (c: String)
    ensures
        c@ == encode_fx_frames_command_spec(dir@, short@, out@),
{
    let mut c = String::new();
    c.append("ffmpeg -y -framerate 30 -i ");
    c.append(dir);
    c.append("/");
    c.append(short);
    c.append("_fx_%03d.png");
    c.append(" -c:v libx264 -pix_fmt yuv420p ");
    c.append(out);
    c.append(".mp4");
    assert(c@ =~= encode_fx_frames_command_spec(dir@, short@, out@));
    c
}

/// Renaming the extracted-frame pattern gives the pattern that the final
/// encoding reads, as long as the stem holds no underscore.
pub proof fn lemma_fx_renaming_matches_encoding(short: Seq<char>)
    requires
        no_underscore(short),
    ensures
        fx_name_spec(extracted_frame_pattern(short)) == fx_frame_pattern(short),
{
    reveal_strlit("_");
    reveal_strlit("_fx_");
    reveal_strlit("%03d.png");
    reveal_strlit("_%03d.png");
    reveal_strlit("_fx_%03d.png");
    let rest = "%03d.png"@;
    assert(rest =~= seq!['%', '0', '3', 'd', '.', 'p', 'n', 'g']);
    assert(no_underscore(rest));
    assert("_%03d.png"@ =~= "_"@ + rest);
    assert("_fx_%03d.png"@ =~= "_fx_"@ + rest);
    lemma_fx_name_of_frame_file(short, rest);
    assert(extracted_frame_pattern(short) =~= short + "_"@ + rest);
    assert(fx_frame_pattern(short) =~= short + "_fx_"@ + rest);
}

/// The frames-to-video command reads the pattern `{dir}/{name}_%d.png`,
/// the same for every name, and the file saved for frame index `idx` is
/// that pattern with `%d` replaced by the decimal text of `idx`; so the
/// encoding finds every saved frame file.
pub proof fn lemma_encoding_reads_saved_frames(
    dir: Seq<char>,
    name: Seq<char>,
    vid: Seq<char>,
    idx: nat,
)
    ensures
        encode_frames_command_spec(dir, name, vid) == "ffmpeg -y -framerate 30 -i "@ + dir + seq![
            '/',
        ] + name + seq!['_'] + seq!['%', 'd'] + seq!['.', 'p', 'n', 'g']
            + " -c:v libx264 -pix_fmt yuv420p "@ + vid + ".mp4"@,
        frame_path_spec(dir, name, idx) == dir + seq!['/'] + name + seq!['_'] + decimal(idx)
            + seq!['.', 'p', 'n', 'g'],
{
    reveal_strlit("/");
    reveal_strlit("_");
    reveal_strlit(".png");
    reveal_strlit("_%d.png -c:v libx264 -pix_fmt yuv420p ");
    reveal_strlit(" -c:v libx264 -pix_fmt yuv420p ");
    assert("/"@ =~= seq!['/']);
    assert("_"@ =~= seq!['_']);
    assert(".png"@ =~= seq!['.', 'p', 'n', 'g']);
    assert("_%d.png -c:v libx264 -pix_fmt yuv420p "@ =~= seq!['_'] + seq!['%', 'd'] + seq![
        '.',
        'p',
        'n',
        'g',
    ] + " -c:v libx264 -pix_fmt yuv420p "@);
    assert(encode_frames_command_spec(dir, name, vid) =~= "ffmpeg -y -framerate 30 -i "@ + dir
        + seq!['/'] + name + seq!['_'] + seq!['%', 'd'] + seq!['.', 'p', 'n', 'g']
        + " -c:v libx264 -pix_fmt yuv420p "@ + vid + ".mp4"@);
    assert(frame_path_spec(dir, name, idx) =~= dir + seq!['/'] + name + seq!['_'] + decimal(idx)
        + seq!['.', 'p', 'n', 'g']);
}

/// The video-to-frames command writes `{dir}/{short}_%03d.png` and the final
/// encoding reads `{dir}/{short}_fx_%03d.png`, whatever the stem; when the
/// stem holds no underscore, that is exactly the renamed form of the pattern
/// the frames were written under.
pub proof fn lemma_extracted_frames_feed_fx_encoding(
    vid: Seq<char>,
    dir: Seq<char>,
    short: Seq<char>,
    out: Seq<char>,
)
    ensures
        extract_frames_command_spec(vid, dir, short) == "ffmpeg -i "@ + vid + " -vf fps=30 "@ + dir
            + seq!['/'] + short + seq!['_', '%', '0', '3', 'd', '.', 'p', 'n', 'g'],
        encode_fx_frames_command_spec(dir, short, out) == "ffmpeg -y -framerate 30 -i "@ + dir
            + seq!['/'] + short + seq!['_', 'f', 'x', '_', '%', '0', '3', 'd', '.', 'p', 'n', 'g']
            + " -c:v libx264 -pix_fmt yuv420p "@ + out + ".mp4"@,
        no_underscore(short) ==> encode_fx_frames_command_spec(dir, short, out)
            == "ffmpeg -y -framerate 30 -i "@ + dir + seq!['/'] + fx_name_spec(
            short + seq!['_', '%', '0', '3', 'd', '.', 'p', 'n', 'g'],
        ) + " -c:v libx264 -pix_fmt yuv420p "@ + out + ".mp4"@,
{
    reveal_strlit("/");
    reveal_strlit("_");
    reveal_strlit("_fx_");
    reveal_strlit("_%03d.png");
    reveal_strlit("_fx_%03d.png");
    assert("/"@ =~= seq!['/']);
    assert("_"@ =~= seq!['_']);
    assert("_fx_"@ =~= seq!['_', 'f', 'x', '_']);
    let rest = seq!['%', '0', '3', 'd', '.', 'p', 'n', 'g'];
    assert("_%03d.png"@ =~= seq!['_'] + rest);
    assert(seq!['_', '%', '0', '3', 'd', '.', 'p', 'n', 'g'] =~= seq!['_'] + rest);
    assert("_fx_%03d.png"@ =~= seq!['_', 'f', 'x', '_'] + rest);
    assert(seq!['_', 'f', 'x', '_', '%', '0', '3', 'd', '.', 'p', 'n', 'g'] =~= seq![
        '_',
        'f',
        'x',
        '_',
    ] + rest);
    assert(encode_fx_frames_command_spec(dir, short, out) =~= "ffmpeg -y -framerate 30 -i "@ + dir
        + seq!['/'] + short + seq!['_', 'f', 'x', '_', '%', '0', '3', 'd', '.', 'p', 'n', 'g']
        + " -c:v libx264 -pix_fmt yuv420p "@ + out + ".mp4"@);
    assert(extract_frames_command_spec(vid, dir, short) =~= "ffmpeg -i "@ + vid + " -vf fps=30 "@
        + dir + seq!['/'] + short + seq!['_', '%', '0', '3', 'd', '.', 'p', 'n', 'g']);
    if no_underscore(short) {
        assert(no_underscore(rest));
        lemma_fx_name_of_frame_file(short, rest);
        assert(short + seq!['_', '%', '0', '3', 'd', '.', 'p', 'n', 'g'] =~= short + "_"@ + rest);
        assert(fx_frame_pattern(short) =~= short + "_fx_"@ + rest);
        assert(encode_fx_frames_command_spec(dir, short, out) =~= "ffmpeg -y -framerate 30 -i "@
            + dir + seq!['/'] + fx_name_spec(
            short + seq!['_', '%', '0', '3', 'd', '.', 'p', 'n', 'g'],
        ) + " -c:v libx264 -pix_fmt yuv420p "@ + out + ".mp4"@);
    }
}

/// A program and its arguments, ready to be started as a process.
pub struct ShellCommand {
    pub program: String,
    pub args: Vec<String>,
}

/// The process that runs an `ffmpeg` line through the platform's shell:
/// `cmd /C {line}` on Windows, `sh -c {line}` elsewhere.
pub fn shell_command(on_windows: bool, line: &str) -> (c: ShellCommand)
    ensures
        c.args.len() == 2,
        c.args[1]@ == line@,
        on_windows ==> c.program@ == "cmd"@ && c.args[0]@ == "/C"@,
        !on_windows ==> c.program@ == "sh"@ && c.args[0]@ == "-c"@,
{
    let mut args: Vec<String> = Vec::new();
    if on_windows {
        args.push(String::from_str("/C"));
        args.push(String::from_str(line));
        ShellCommand { program: String::from_str("cmd"), args }
    } else {
        args.push(String::from_str("-c"));
        args.push(String::from_str(line));
        ShellCommand { program: String::from_str("sh"), args }
    }
}

} // verus!
