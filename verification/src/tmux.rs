use vstd::prelude::*;

use crate::text::{chars_of, find_from, first_from, push_char, push_str, split_lines, string_from_chars, text_lines};

verus! {

/// A tmux pane that comments can be sent to.
#[derive(Debug, Clone)]
pub struct TmuxPane {
    pub id: String,
    pub label: String,
}

/// A pane with its strings as character sequences.
#[verifier::ext_equal]
pub struct PaneView {
    pub id: Seq<char>,
    pub label: Seq<char>,
}

impl View for TmuxPane {
    type V = PaneView;

    open spec fn view(&self) -> PaneView {
        PaneView { id: self.id@, label: self.label@ }
    }
}

/// The pane that a line of `tmux list-panes` output describes: four tab-separated
/// fields (id, target, window, command; the command keeps any further tabs), or none.
pub open spec fn parse_pane_line(l: Seq<char>) -> Option<PaneView> {
    match first_from(l, '\t', 0) {
        None => None,
        Some(i) => match first_from(l, '\t', i + 1) {
            None => None,
            Some(j) => match first_from(l, '\t', j + 1) {
                None => None,
                Some(k) => {
                    let id = l.subrange(0, i);
                    let target = l.subrange(i + 1, j);
                    let window = l.subrange(j + 1, k);
                    let cmd = l.subrange(k + 1, l.len() as int);
                    Some(PaneView {
                        id: id,
                        label: id + seq![' ', ' '] + target + seq![' ', ' '] + window + seq![' ', ' ', '['] + cmd + seq![']'],
                    })
                },
            },
        },
    }
}

/// The panes that the lines describe, other than the pane `self_id`.
pub open spec fn panes_of(lines: Seq<Seq<char>>, self_id: Option<Seq<char>>) -> Seq<PaneView>
    decreases lines.len(),
{
    if lines.len() == 0 {
        seq![]
    } else {
        panes_of(lines.drop_last(), self_id) + match parse_pane_line(lines.last()) {
            Some(p) => if self_id == Some(p.id) {
                seq![]
            } else {
                seq![p]
            },
            None => seq![],
        }
    }
}

fn sub_chars(l: &Vec<char>, a: usize, b: usize) -> (r: Vec<char>)
    requires
        a <= b <= l@.len(),
    ensures
        r@ == l@.subrange(a as int, b as int),
{
    let mut out: Vec<char> = Vec::new();
    let mut i = a;
    while i < b
        invariant
            a <= i <= b <= l@.len(),
            out@ == l@.subrange(a as int, i as int),
        decreases b - i,
    {
        out.push(l[i]);
        proof {
            assert(out@ =~= l@.subrange(a as int, i + 1));
        }
        i = i + 1;
    }
    out
}

/// Reads a pane from one line of `tmux list-panes` output.
pub fn parse_pane(l: &Vec<char>) -> (r: Option<TmuxPane>)
    ensures
        r is Some <==> parse_pane_line(l@) is Some,
        r matches Some(p) ==> p@ == parse_pane_line(l@)->0,
{
    let i = match find_from(l, '\t', 0) {
        Some(i) => i,
        None => return None,
    };
    assert(i < l.len());
    let j = match find_from(l, '\t', i + 1) {
        Some(j) => j,
        None => return None,
    };
    assert(j < l.len());
    let k = match find_from(l, '\t', j + 1) {
        Some(k) => k,
        None => return None,
    };
    let id = string_from_chars(&sub_chars(l, 0, i));
    let target = string_from_chars(&sub_chars(l, i + 1, j));
    let window = string_from_chars(&sub_chars(l, j + 1, k));
    let cmd = string_from_chars(&sub_chars(l, k + 1, l.len()));
    let mut label = String::new();
    push_str(&mut label, id.as_str());
    push_char(&mut label, ' ');
    push_char(&mut label, ' ');
    push_str(&mut label, target.as_str());
    push_char(&mut label, ' ');
    push_char(&mut label, ' ');
    push_str(&mut label, window.as_str());
    push_char(&mut label, ' ');
    push_char(&mut label, ' ');
    push_char(&mut label, '[');
    push_str(&mut label, cmd.as_str());
    push_char(&mut label, ']');
    let p = TmuxPane { id, label };
    proof {
        assert(p@ =~= parse_pane_line(l@)->0);
    }
    Some(p)
}

/// The panes listed in the output of `tmux list-panes`, other than the pane `self_id`.
pub fn parse_panes(text: &str, self_id: Option<&str>) -> (r: Vec<TmuxPane>)
    ensures
        r@.map_values(|p: TmuxPane| p@) == panes_of(
            text_lines(text@),
            match self_id {
                Some(s) => Some(s@),
                None => None,
            },
        ),
{
    let ghost sid = match self_id {
        Some(s) => Some(s@),
        None => None,
    };
    let lines = split_lines(text);
    let ghost lv = lines@.map_values(|v: Vec<char>| v@);
    let mut out: Vec<TmuxPane> = Vec::new();
    let mut i: usize = 0;
    while i < lines.len()
        invariant
            lv == lines@.map_values(|v: Vec<char>| v@),
            lv == text_lines(text@),
            i <= lines@.len(),
            sid == (match self_id {
                Some(s) => Some(s@),
                None => None,
            }),
            out@.map_values(|p: TmuxPane| p@) == panes_of(lv.take(i as int), sid),
        decreases lines@.len() - i,
    {
        proof {
            assert(lv.take(i + 1).drop_last() =~= lv.take(i as int));
            assert(lv.take(i + 1).last() == lines@[i as int]@);
        }
        match parse_pane(&lines[i]) {
            Some(p) => {
                let keep = match self_id {
                    Some(s) => !str_eq(s, p.id.as_str()),
                    None => true,
                };
                if keep {
                    proof {
                        assert(out@.push(p).map_values(|q: TmuxPane| q@) =~= out@.map_values(|q: TmuxPane| q@).push(p@));
                    }
                    out.push(p);
                }
            },
            None => {},
        }
        i = i + 1;
    }
    proof {
        assert(lv.take(i as int) =~= lv);
    }
    out
}

/// Whether two strings hold the same characters.
pub(crate) fn str_eq(a: &str, b: &str) -> (r: bool)
    ensures
        r == (a@ == b@),
{
    let x = chars_of(a);
    let y = chars_of(b);
    if x.len() != y.len() {
        return false;
    }
    let mut i: usize = 0;
    while i < x.len()
        invariant
            x@ == a@,
            y@ == b@,
            x@.len() == y@.len(),
            i <= x@.len(),
            forall|j: int| 0 <= j < i ==> x@[j] == y@[j],
        decreases x@.len() - i,
    {
        if x[i] != y[i] {
            return false;
        }
        i = i + 1;
    }
    proof {
        assert(a@ =~= b@);
    }
    true
}

} // verus!
