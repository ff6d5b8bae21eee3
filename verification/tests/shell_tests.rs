use hackatime_setup::shell::{
    count_occurrences, hook_bytes, marker_bytes, register, startup_file_bytes, Shell,
};

const SHELLS: [Shell; 3] = [Shell::Bash, Shell::Zsh, Shell::Fish];

#[test]
fn file_with_the_marker_is_left_alone() {
    for shell in SHELLS {
        for add_path in [false, true] {
            assert_eq!(register(b"# mine\nterminal-wakatime init fish | source\n", shell, add_path), None);
            assert_eq!(register(b"xterminal-wakatimex", shell, add_path), None);
            assert_eq!(register(b"terminal-wakatime", shell, add_path), None);
        }
    }
}

#[test]
fn file_without_the_marker_gets_exactly_one() {
    let marker = marker_bytes();
    for shell in SHELLS {
        for add_path in [false, true] {
            let hook = hook_bytes(shell, add_path);
            for content in [&b""[..], b"set fish_greeting\n", b"terminal-wakatim", b"terminal", b"wakatime"] {
                assert_eq!(count_occurrences(content, &marker), 0);
                let written = register(content, shell, add_path).unwrap();
                assert_eq!(count_occurrences(&written, &marker), 1);
                assert!(written.len() > content.len());
                assert!(written.starts_with(content));
                assert_eq!(written[content.len()], b'\n');
                assert_eq!(&written[content.len() + 1..], &hook[..]);
            }
        }
    }
}

#[test]
fn registering_twice_registers_once() {
    for shell in SHELLS {
        for add_path in [false, true] {
            let once = register(b"alias ll='ls -l'", shell, add_path).unwrap();
            assert_eq!(register(&once, shell, add_path), None);
            assert_eq!(count_occurrences(&once, &marker_bytes()), 1);
        }
    }
}

#[test]
fn every_hook_holds_the_marker_once() {
    for shell in SHELLS {
        for add_path in [false, true] {
            assert_eq!(count_occurrences(&hook_bytes(shell, add_path), &marker_bytes()), 1);
        }
    }
}

#[test]
fn hooks_are_spelled_out() {
    assert_eq!(hook_bytes(Shell::Fish, false), b"terminal-wakatime init fish | source".to_vec());
    assert_eq!(
        hook_bytes(Shell::Fish, true),
        b"set -x PATH \"$HOME/.wakatime\" $PATH\nterminal-wakatime init fish | source".to_vec()
    );
    assert_eq!(hook_bytes(Shell::Bash, false), b"eval \"$(terminal-wakatime init)\"".to_vec());
    assert_eq!(hook_bytes(Shell::Zsh, false), b"eval \"$(terminal-wakatime init)\"".to_vec());
    assert_eq!(
        hook_bytes(Shell::Zsh, true),
        b"export PATH=\"$HOME/.wakatime:$PATH\"\neval \"$(terminal-wakatime init)\"".to_vec()
    );
    assert_eq!(
        register(b"# rc", Shell::Bash, true),
        Some(b"# rc\nexport PATH=\"$HOME/.wakatime:$PATH\"\neval \"$(terminal-wakatime init)\"".to_vec())
    );
}

#[test]
fn startup_files_are_named() {
    assert_eq!(startup_file_bytes(Shell::Bash), b".bashrc".to_vec());
    assert_eq!(startup_file_bytes(Shell::Zsh), b".zshrc".to_vec());
    assert_eq!(startup_file_bytes(Shell::Fish), b".config/fish/config.fish".to_vec());
    assert_eq!(marker_bytes(), b"terminal-wakatime".to_vec());
}

#[test]
fn occurrences_are_counted_with_overlaps() {
    assert_eq!(count_occurrences(b"aaaa", b"aa"), 3);
    assert_eq!(count_occurrences(b"abcabc", b"abc"), 2);
    assert_eq!(count_occurrences(b"abc", b"abcd"), 0);
    assert_eq!(count_occurrences(b"", b"a"), 0);
    assert_eq!(count_occurrences(b"abc", b""), 3);
}
