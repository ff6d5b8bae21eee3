//! Hooking the terminal tracker into shell startup files.
//!
//! A startup file is only ever appended to, and only while it does not
//! yet hold the marker. What is appended holds the marker exactly once, so
//! a second run finds it and stops.

use crate::installer::{
    action_for, listing_result, InstallAction, InstallEvent, InstallPhase, ProbeResult,
};
use crate::text::{
    append_bytes, ascii, contains, find, LINE_FEED, literal_bytes, match_at, matches_at, no_byte,
};
use vstd::prelude::*;
use vstd::slice::slice_to_vec;

verus! {

/// The shells whose startup files are looked after.
#[derive(Clone, Copy, Debug, PartialEq, Eq, Structural)]
pub enum Shell {
    Bash,
    Zsh,
    Fish,
}

/// The text whose presence in a startup file means that the hook is
/// there: `terminal-wakatime`.
pub open spec fn marker() -> Seq<u8> {
    ascii("terminal-wakatime"@)
}

/// The startup file of a shell, relative to the home directory.
pub open spec fn startup_file(shell: Shell) -> Seq<u8> {
    match shell {
        Shell::Bash => ascii(".bashrc"@),
        Shell::Zsh => ascii(".zshrc"@),
        Shell::Fish => ascii(".config/fish/config.fish"@),
    }
}

/// The line that puts the tracker's directory on the search path.
pub open spec fn path_line(shell: Shell) -> Seq<u8> {
    match shell {
        Shell::Fish => ascii("set -x PATH \"$HOME/.wakatime\" $PATH"@),
        _ => ascii("export PATH=\"$HOME/.wakatime:$PATH\""@),
    }
}

/// The line that starts the tracker. Each shell evaluates, whenever it
/// starts, what the tracker's own `init` command prints; the line itself
/// is fixed and names the tracker once.
pub open spec fn start_line(shell: Shell) -> Seq<u8> {
    match shell {
        Shell::Fish => ascii("terminal-wakatime init fish | source"@),
        _ => ascii("eval \"$(terminal-wakatime init)\""@),
    }
}

/// What is appended to the startup file of `shell`: the start line, after
/// the path line where one is wanted.
pub open spec fn hook(shell: Shell, add_path: bool) -> Seq<u8> {
    if add_path {
        path_line(shell) + seq![LINE_FEED] + start_line(shell)
    } else {
        start_line(shell)
    }
}

/// The content of a startup file after registering: unchanged where it
/// holds the marker, else with a line feed and the hook at its end.
pub open spec fn registered(content: Seq<u8>, shell: Shell, add_path: bool) -> Seq<u8> {
    if contains(content, marker()) {
        content
    } else {
        content + seq![LINE_FEED] + hook(shell, add_path)
    }
}

/// How many of the indices below `n` are places where `needle` stands in
/// `text`.
pub open spec fn occurrences_below(text: Seq<u8>, needle: Seq<u8>, n: int) -> nat
    decreases n,
{
    if n <= 0 {
        0
    } else {
        occurrences_below(text, needle, n - 1) + if match_at(text, needle, n - 1) {
            1nat
        } else {
            0nat
        }
    }
}

/// How many times `needle` stands in `text`: the number of indices of
/// `text` at which it stands, overlaps counted.
pub open spec fn occurrences(text: Seq<u8>, needle: Seq<u8>) -> nat {
    occurrences_below(text, needle, text.len() as int)
}

/// The marker.
pub fn marker_bytes() -> (out: Vec<u8>)
    ensures
        out@ == marker(),
{
    proof {
        reveal_strlit("terminal-wakatime");
    }
    literal_bytes("terminal-wakatime")
}

/// The startup file of a shell, relative to the home directory.
pub fn startup_file_bytes(shell: Shell) -> (out: Vec<u8>)
    ensures
        out@ == startup_file(shell),
{
    proof {
        reveal_strlit(".bashrc");
        reveal_strlit(".zshrc");
        reveal_strlit(".config/fish/config.fish");
    }
    match shell {
        Shell::Bash => literal_bytes(".bashrc"),
        Shell::Zsh => literal_bytes(".zshrc"),
        Shell::Fish => literal_bytes(".config/fish/config.fish"),
    }
}

/// What to append to the startup file of `shell`. It holds the marker
/// exactly once.
pub fn hook_bytes(shell: Shell, add_path: bool) -> (out: Vec<u8>)
    ensures
        out@ == hook(shell, add_path),
        contains(out@, marker()),
        occurrences(out@, marker()) == 1,
{
    proof {
        reveal_strlit("set -x PATH \"$HOME/.wakatime\" $PATH");
        reveal_strlit("export PATH=\"$HOME/.wakatime:$PATH\"");
        reveal_strlit("terminal-wakatime init fish | source");
        reveal_strlit("eval \"$(terminal-wakatime init)\"");
        hook_holds_marker_once(shell, add_path);
    }
    let line = match shell {
        Shell::Fish => literal_bytes("terminal-wakatime init fish | source"),
        _ => literal_bytes("eval \"$(terminal-wakatime init)\""),
    };
    if add_path {
        let mut out = match shell {
            Shell::Fish => literal_bytes("set -x PATH \"$HOME/.wakatime\" $PATH"),
            _ => literal_bytes("export PATH=\"$HOME/.wakatime:$PATH\""),
        };
        out.push(LINE_FEED);
        append_bytes(&mut out, line.as_slice());
        out
    } else {
        line
    }
}

/// Registers the tracker in the content of a startup file. Where the
/// content holds the marker already there is nothing to write and the
/// result is `None`. Otherwise the result is the content with a line feed
/// and the hook appended; what was there stays as it was, and the marker
/// then stands in the file exactly once.
pub fn register(content: &[u8], shell: Shell, add_path: bool) -> (out: Option<Vec<u8>>)
    ensures
        out is None <==> contains(content@, marker()),
        out matches Some(bytes) ==> {
            &&& bytes@ == content@ + seq![LINE_FEED] + hook(shell, add_path)
            &&& bytes@ == registered(content@, shell, add_path)
            &&& occurrences(bytes@, marker()) == 1
            &&& contains(bytes@, marker())
        },
{
    let marker = marker_bytes();
    match find(content, marker.as_slice()) {
        Some(_) => None,
        None => {
            let mut out = slice_to_vec(content);
            out.push(LINE_FEED);
            append_bytes(&mut out, hook_bytes(shell, add_path).as_slice());
            proof {
                registering_adds_one_marker(content@, shell, add_path);
                registering_twice_changes_nothing(content@, shell, add_path);
            }
            Some(out)
        },
    }
}

/// How many times `needle` stands in `text`.
pub fn count_occurrences(text: &[u8], needle: &[u8]) -> (n: usize)
    ensures
        n == occurrences(text@, needle@),
{
    let mut n: usize = 0;
    let mut i: usize = 0;
    while i < text.len()
        invariant
            i <= text@.len(),
            n <= i,
            n == occurrences_below(text@, needle@, i as int),
        decreases text@.len() - i,
    {
        if matches_at(text, needle, i) {
            n += 1;
        }
        i += 1;
    }
    n
}

/// Below any index, a text made of a head without the needle, a line
/// feed and a tail has the occurrences of the tail, moved by the length of
/// what stands before it.
proof fn lemma_occurrences_after(head: Seq<u8>, tail: Seq<u8>, needle: Seq<u8>, n: int)
    requires
        !contains(head, needle),
        no_byte(needle, LINE_FEED),
        needle.len() > 0,
        0 <= n,
    ensures
        occurrences_below(head + seq![LINE_FEED] + tail, needle, n) == occurrences_below(
            tail,
            needle,
            n - head.len() - 1,
        ),
    decreases n,
{
    let whole = head + seq![LINE_FEED] + tail;
    let shift = head.len() + 1;
    if n > 0 {
        lemma_occurrences_after(head, tail, needle, n - 1);
        let i = n - 1;
        if i < shift {
            if match_at(whole, needle, i) {
                if i + needle.len() <= head.len() {
                    assert(head.subrange(i, i + needle.len()) =~= whole.subrange(
                        i,
                        i + needle.len(),
                    ));
                    assert(match_at(head, needle, i));
                } else {
                    let at = head.len() - i;
                    assert(whole.subrange(i, i + needle.len())[at] == whole[head.len() as int]);
                }
            }
        } else {
            if i + needle.len() <= whole.len() {
                assert(whole.subrange(i, i + needle.len()) =~= tail.subrange(
                    i - shift,
                    i - shift + needle.len(),
                ));
            }
        }
    }
}

/// Joining a text that does not hold the needle, a line feed and another
/// text gives as many occurrences as the other text has, provided the
/// needle is not empty and holds no line feed.
pub proof fn occurrences_after_line(head: Seq<u8>, tail: Seq<u8>, needle: Seq<u8>)
    requires
        !contains(head, needle),
        no_byte(needle, LINE_FEED),
        needle.len() > 0,
    ensures
        occurrences(head + seq![LINE_FEED] + tail, needle) == occurrences(tail, needle),
{
    lemma_occurrences_after(head, tail, needle, head.len() as int + 1 + tail.len() as int);
}

/// A needle that stands at one index only is counted once from that
/// index on.
proof fn lemma_occurrences_single(text: Seq<u8>, needle: Seq<u8>, at: int, n: int)
    requires
        match_at(text, needle, at),
        forall|i: int| i != at ==> !match_at(text, needle, i),
        0 <= n,
    ensures
        occurrences_below(text, needle, n) == if n > at {
            1nat
        } else {
            0nat
        },
    decreases n,
{
    if n > 0 {
        lemma_occurrences_single(text, needle, at, n - 1);
    }
}

/// In a text, the marker can only stand where a `t` is followed by an `e`.
proof fn lemma_marker_start(text: Seq<u8>, i: int)
    requires
        match_at(text, marker(), i),
    ensures
        0 <= i,
        i + 1 < text.len(),
        text[i] == marker()[0],
        text[i + 1] == marker()[1],
        marker()[0] == 116,
        marker()[1] == 101,
{
    reveal_strlit("terminal-wakatime");
    let m = marker();
    assert(text.subrange(i, i + m.len())[0] == m[0]);
    assert(text.subrange(i, i + m.len())[1] == m[1]);
}

/// The start line of every shell holds the marker exactly once.
proof fn lemma_start_line(shell: Shell)
    ensures
        occurrences(start_line(shell), marker()) == 1,
        contains(start_line(shell), marker()),
{
    reveal_strlit("terminal-wakatime");
    reveal_strlit("terminal-wakatime init fish | source");
    reveal_strlit("eval \"$(terminal-wakatime init)\"");
    let m = marker();
    let line = start_line(shell);
    let at: int = if shell == Shell::Fish {
        0
    } else {
        8
    };
    assert(line.subrange(at, at + m.len()) =~= m);
    assert(match_at(line, m, at));
    assert forall|i: int| i != at implies !match_at(line, m, i) by {
        if match_at(line, m, i) {
            lemma_marker_start(line, i);
        }
    }
    lemma_occurrences_single(line, m, at, line.len() as int);
}

/// The path line of every shell does not hold the marker.
proof fn lemma_path_line(shell: Shell)
    ensures
        !contains(path_line(shell), marker()),
{
    reveal_strlit("set -x PATH \"$HOME/.wakatime\" $PATH");
    reveal_strlit("export PATH=\"$HOME/.wakatime:$PATH\"");
    let path = path_line(shell);
    assert forall|i: int| !match_at(path, marker(), i) by {
        if match_at(path, marker(), i) {
            lemma_marker_start(path, i);
        }
    }
}

/// A text that ends in a text that holds the needle holds it too.
proof fn lemma_contains_tail(head: Seq<u8>, tail: Seq<u8>, needle: Seq<u8>)
    requires
        contains(tail, needle),
    ensures
        contains(head + tail, needle),
{
    let i = choose|i: int| match_at(tail, needle, i);
    let shift = head.len() as int;
    assert((head + tail).subrange(i + shift, i + shift + needle.len()) =~= tail.subrange(
        i,
        i + needle.len(),
    ));
    assert(match_at(head + tail, needle, i + shift));
}

/// The hook of every shell, with or without the path line, holds the
/// marker exactly once; the marker is not empty and holds no line feed.
pub proof fn hook_holds_marker_once(shell: Shell, add_path: bool)
    ensures
        occurrences(hook(shell, add_path), marker()) == 1,
        contains(hook(shell, add_path), marker()),
        no_byte(marker(), LINE_FEED),
        marker().len() > 0,
{
    reveal_strlit("terminal-wakatime");
    lemma_start_line(shell);
    if add_path {
        lemma_path_line(shell);
        occurrences_after_line(path_line(shell), start_line(shell), marker());
        lemma_contains_tail(path_line(shell) + seq![LINE_FEED], start_line(shell), marker());
    }
}

/// A startup file that holds the marker is left as it is.
pub proof fn marked_file_is_left_alone(content: Seq<u8>, shell: Shell, add_path: bool)
    requires
        contains(content, marker()),
    ensures
        registered(content, shell, add_path) == content,
{
}

/// Registering in a startup file that does not hold the marker appends
/// to it, leaving what was there as it was, and the marker then stands in
/// the file exactly once.
pub proof fn registering_adds_one_marker(content: Seq<u8>, shell: Shell, add_path: bool)
    requires
        !contains(content, marker()),
    ensures
        registered(content, shell, add_path) == content + seq![LINE_FEED] + hook(shell, add_path),
        registered(content, shell, add_path).subrange(0, content.len() as int) == content,
        registered(content, shell, add_path).len() > content.len(),
        occurrences(registered(content, shell, add_path), marker()) == 1,
{
    hook_holds_marker_once(shell, add_path);
    occurrences_after_line(content, hook(shell, add_path), marker());
    assert(registered(content, shell, add_path).subrange(0, content.len() as int) =~= content);
}

/// Registering twice is registering once: after the first time the file
/// holds the marker, a probe of it finds the hook present, so that the
/// user is not asked again, and the second time changes nothing. This
/// holds for every startup file and every shell.
pub proof fn registering_twice_changes_nothing(content: Seq<u8>, shell: Shell, add_path: bool)
    ensures
        contains(registered(content, shell, add_path), marker()),
        listing_result(Some(registered(content, shell, add_path)), marker())
            == ProbeResult::Present,
        action_for(
            InstallPhase::Probing,
            InstallEvent::Probed(
                listing_result(Some(registered(content, shell, add_path)), marker()),
            ),
        ) == InstallAction::CheckDrift,
        registered(registered(content, shell, add_path), shell, add_path) == registered(
            content,
            shell,
            add_path,
        ),
{
    if !contains(content, marker()) {
        hook_holds_marker_once(shell, add_path);
        lemma_contains_tail(content + seq![LINE_FEED], hook(shell, add_path), marker());
    }
}

} // verus!
