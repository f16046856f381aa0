//! The small vocabulary that the views of a project share.

use crate::input::key::{KeyCode, KeyEvent};
use vstd::prelude::*;

verus! {

/// How many rows of a list a page is.
pub const LIST_PAGE_SIZE: usize = 10;

/// How many rows of a diff a page is.
pub const DIFF_PAGE_SIZE: usize = 20;

/// What a notice is about. Keying expiry on this, and not on the text, forces
/// a decision about when each new kind goes away.
#[derive(Debug, Clone, Copy, PartialEq, Eq, Structural)]
pub enum NoticeKind {
    Git,
    Diff,
    Terminal,
    Tree,
    Session,
    RepoInput,
    Project,
}

/// A line of news for the user.
#[derive(Debug, Clone, PartialEq, Eq)]
pub struct Notice {
    pub kind: NoticeKind,
    pub text: String,
}

/// What the upper half shows.
#[derive(Debug, Clone, Copy, PartialEq, Eq, Structural)]
pub enum ViewMode {
    Status,
    Log,
    Tree,
}

impl Default for ViewMode {
    fn default() -> (r: ViewMode)
        ensures
            r == ViewMode::Status,
    {
        ViewMode::Status
    }
}

/// What keys go to.
#[derive(Debug, Clone, Copy, PartialEq, Eq, Structural)]
pub enum Focus {
    FileList,
    DiffViewer,
    Terminal,
}

/// Following changed files: when the user last moved, and the path last
/// steered to. Times are nanoseconds.
#[derive(Debug)]
pub struct AutoFollow {
    pub last_manual_nav_at: Option<u128>,
    pub followed_path: Option<String>,
}

impl Default for AutoFollow {
    fn default() -> (r: AutoFollow)
        ensures
            r.last_manual_nav_at is None,
            r.followed_path is None,
    {
        AutoFollow { last_manual_nav_at: None, followed_path: None }
    }
}

/// `c` with an ASCII small letter made a capital.
pub open spec fn ascii_capital(c: char) -> char {
    if 'a' <= c <= 'z' {
        (c as u32 - 32) as char
    } else {
        c
    }
}

fn capital_char(c: char) -> (r: char)
    ensures
        r == ascii_capital(c),
{
    if 'a' <= c && c <= 'z' {
        (c as u8 - 32) as char
    } else {
        c
    }
}

/// How the leader is shown in hints.
pub open spec fn leader_text(leader: KeyEvent) -> Seq<char> {
    match leader.code {
        KeyCode::Char(c) => if leader.modifiers.control {
            seq!['^', ascii_capital(c)]
        } else {
            seq![c]
        },
        _ => "<prefix>"@,
    }
}

/// How the leader is shown in hints.
pub fn leader_label_of(leader: KeyEvent) -> (r: String)
    ensures
        r@ == leader_text(leader),
{
    match leader.code {
        KeyCode::Char(c) => {
            let mut out = String::new();
            if leader.modifiers.control {
                out.push('^');
                out.push(capital_char(c));
            } else {
                out.push(c);
            }
            proof {
                assert(out@ =~= leader_text(leader));
            }
            out
        },
        _ => "<prefix>".to_owned(),
    }
}

/// A leader is shown as a caret and its capital letter where control is held,
/// as its character where it is not, and otherwise by its role.
pub proof fn law_leaders_are_shown(c: char, leader: KeyEvent)
    requires
        'a' <= c <= 'z',
    ensures
        leader.code == KeyCode::Char(c) && leader.modifiers.control ==> leader_text(leader).len()
            == 2 && leader_text(leader)[0] == '^' && leader_text(leader)[1] as u32 == c as u32
            - 32,
        leader.code == KeyCode::Char(c) && !leader.modifiers.control ==> leader_text(leader)
            == seq![c],
        !(leader.code is Char) ==> leader_text(leader) == "<prefix>"@,
{
}

} // verus!
