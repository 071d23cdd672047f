//! The prompt segments.
use ix::prompt::git::{Counts as GitCounts, Head as GitHead, HeadName, Tracking};
use ix::prompt::jj::{Bookmark, Flags, Head as JjHead};
use ix::prompt::render::{git, jj};
use ix::prompt::survey::parse;
use ix::prompt::views::{Counts, View};

#[test]
fn a_jj_working_copy_reads_change_bookmark_distance_then_flags() {
    let head = JjHead {
        change_prefix: "l".to_owned(),
        change_rest: "surukvy".to_owned(),
        flags: Flags {
            empty: false,
            conflict: false,
            divergent: false,
        },
        bookmark: Some(Bookmark {
            names: "ix-patched".to_owned(),
            distance: 2,
        }),
    };

    assert_eq!(jj(&head, None, false), "on \u{f15c6} lsurukvy ix-patched+2 *");
}

#[test]
fn an_empty_jj_working_copy_on_its_bookmark_shows_neither_flag_nor_distance() {
    let head = JjHead {
        change_prefix: "q".to_owned(),
        change_rest: "pzxrtln".to_owned(),
        flags: Flags {
            empty: true,
            conflict: false,
            divergent: false,
        },
        bookmark: Some(Bookmark {
            names: "main".to_owned(),
            distance: 0,
        }),
    };

    assert_eq!(jj(&head, None, false), "on \u{f15c6} qpzxrtln main");
}

#[test]
fn a_view_directory_names_the_view_and_the_last_surveys_counts() {
    let head = JjHead {
        change_prefix: "p".to_owned(),
        change_rest: "sqrptoq".to_owned(),
        flags: Flags {
            empty: true,
            conflict: false,
            divergent: false,
        },
        bookmark: Some(Bookmark {
            names: "main".to_owned(),
            distance: 1,
        }),
    };
    let view = View {
        name: "ix".to_owned(),
        counts: Some(Counts {
            behind: 25,
            ahead: 0,
        }),
    };

    assert_eq!(
        jj(&head, Some(&view), false),
        "on \u{f15c6} psqrptoq main+1 ix⇣25"
    );
}

#[test]
fn a_view_with_nothing_to_report_is_just_its_name() {
    let head = JjHead {
        change_prefix: "q".to_owned(),
        change_rest: "pzxrtln".to_owned(),
        flags: Flags {
            empty: true,
            conflict: false,
            divergent: false,
        },
        bookmark: None,
    };
    for counts in [None, Some(Counts {
        behind: 0,
        ahead: 0,
    })] {
        let view = View {
            name: "ix".to_owned(),
            counts,
        };
        assert_eq!(jj(&head, Some(&view), false), "on \u{f15c6} qpzxrtln ix");
    }
}

#[test]
fn git_counts_follow_starship_order_and_symbols() {
    let head = GitHead {
        name: HeadName::Branch("main".to_owned()),
        tracking: Some(Tracking {
            ahead: 2,
            behind: 1,
        }),
        counts: GitCounts {
            modified: 3,
            untracked: 1,
            ..GitCounts::default()
        },
    };

    assert_eq!(git(&head, false), "on \u{e0a0} main !3?1⇕⇡2⇣1");
}

#[test]
fn a_detached_head_shows_the_commit_in_parentheses() {
    let head = GitHead {
        name: HeadName::Detached("c1b4a88".to_owned()),
        tracking: None,
        counts: GitCounts::default(),
    };

    assert_eq!(git(&head, false), "on \u{e0a0} (c1b4a88)");
}

#[test]
fn a_surveyed_view_carries_its_counts() {
    assert_eq!(
        parse("ix\t25\t1\n"),
        Some(View {
            name: "ix".to_owned(),
            counts: Some(Counts {
                behind: 25,
                ahead: 1,
            }),
        })
    );
}

#[test]
fn a_view_never_surveyed_is_a_bare_name() {
    assert_eq!(
        parse("ix\n"),
        Some(View {
            name: "ix".to_owned(),
            counts: None,
        })
    );
}

#[test]
fn outside_every_view_there_is_nothing_to_parse() {
    assert_eq!(parse(""), None);
}

#[test]
fn colors_wrap_each_piece() {
    let head = JjHead {
        change_prefix: "l".to_owned(),
        change_rest: "suru".to_owned(),
        flags: Flags {
            empty: true,
            conflict: true,
            divergent: true,
        },
        bookmark: None,
    };
    assert_eq!(
        jj(&head, None, true),
        "on \x1b[1m\x1b[35m\u{f15c6} \x1b[0m\x1b[1m\x1b[35ml\x1b[0m\x1b[2msuru\x1b[0m \x1b[1m\x1b[31m=??\x1b[0m"
    );
    let head = GitHead {
        name: HeadName::Branch("main".to_owned()),
        tracking: Some(Tracking {
            ahead: 0,
            behind: 0,
        }),
        counts: GitCounts::default(),
    };
    assert_eq!(
        git(&head, true),
        "on \x1b[1m\x1b[35m\u{e0a0} \x1b[0m\x1b[1m\x1b[35mmain\x1b[0m"
    );
}

#[test]
fn git_counts_have_one_symbol_each() {
    let head = GitHead {
        name: HeadName::Branch("b".to_owned()),
        tracking: Some(Tracking {
            ahead: 3,
            behind: 0,
        }),
        counts: GitCounts {
            conflicted: 1,
            deleted: 2,
            renamed: 3,
            modified: 0,
            staged: 5,
            untracked: 6,
        },
    };
    assert_eq!(git(&head, false), "on \u{e0a0} b =1✘2»3+5?6⇡3");
}

#[test]
fn surveys_that_make_no_sense_are_not_parsed() {
    assert_eq!(parse("\n"), None);
    assert_eq!(parse("ix\tmany\t1\n"), None);
    assert_eq!(parse("ix\t99999999999999999999999\t1\n"), None);
    // Two columns are no survey, and a carriage return belongs to the line
    // break.
    let bare = Some(View {
        name: "ix".to_owned(),
        counts: None,
    });
    assert_eq!(parse("ix\t1\n"), bare);
    assert_eq!(parse("ix\r\nmore\n"), bare);
}

/// A text without its style sequences.
fn visible(text: &str) -> String {
    let mut out = String::new();
    let mut rest = text;
    while let Some(at) = rest.find("\x1b[") {
        out.push_str(&rest[..at]);
        let tail = &rest[at..];
        let end = tail.find('m').map_or(tail.len(), |end| end + 1);
        rest = &tail[end..];
    }
    out.push_str(rest);
    out
}

#[test]
fn color_changes_no_visible_text() {
    let head = JjHead {
        change_prefix: "km".to_owned(),
        change_rest: "qxyz".to_owned(),
        flags: Flags { empty: false, conflict: true, divergent: true },
        bookmark: Some(Bookmark { names: "main".to_owned(), distance: 3 }),
    };
    let view = View {
        name: "nix".to_owned(),
        counts: Some(Counts { behind: 2, ahead: 1 }),
    };
    let plain = jj(&head, Some(&view), false);
    let colored = jj(&head, Some(&view), true);
    assert_ne!(plain, colored);
    assert_eq!(visible(&colored), plain);
    assert!(!plain.contains('\x1b'));
}
