use vstd::prelude::*;

use crate::app::{App, FlatLine, UiState, flat_line_at};
use crate::diff_model::DiffFile;
use crate::keys::{KeyCode, KeyPress};
use crate::mode::Mode;
use crate::nav::next_match_cursor;
use crate::text::{chars_of, contains_chars, contains_seq, lowercase, pop_char, push_char, to_lowercase};

verus! {

/// Whether the line at flat index `i` contains `q`, ignoring case (`q` already lowercase).
pub open spec fn line_matches(files: Seq<DiffFile>, flat: Seq<FlatLine>, i: int, q: Seq<char>) -> bool {
    flat_line_at(files, flat, i) matches Some(l) && contains_seq(lowercase(l.content@), q)
}

/// The flat indices below `n` whose lines contain `q`, in order.
pub open spec fn matches_below(files: Seq<DiffFile>, flat: Seq<FlatLine>, q: Seq<char>, n: nat) -> Seq<usize>
    decreases n,
{
    if n == 0 {
        seq![]
    } else {
        matches_below(files, flat, q, (n - 1) as nat) + if line_matches(files, flat, n - 1, q) {
            seq![(n - 1) as usize]
        } else {
            seq![]
        }
    }
}

/// The search results for `query`: the lines that contain it, ignoring case; none for an empty query.
pub open spec fn search_results(files: Seq<DiffFile>, flat: Seq<FlatLine>, query: Seq<char>) -> Seq<usize> {
    if query.len() == 0 {
        seq![]
    } else {
        matches_below(files, flat, lowercase(query), flat.len())
    }
}

/// Search results are in increasing order, each a line of the view.
pub proof fn lemma_matches_below_sorted(files: Seq<DiffFile>, flat: Seq<FlatLine>, q: Seq<char>, n: nat)
    requires
        n <= usize::MAX + 1,
    ensures
        forall|i: int, j: int| 0 <= i < j < matches_below(files, flat, q, n).len()
            ==> matches_below(files, flat, q, n)[i] < matches_below(files, flat, q, n)[j],
        forall|i: int| 0 <= i < matches_below(files, flat, q, n).len()
            ==> matches_below(files, flat, q, n)[i] < n,
    decreases n,
{
    if n > 0 {
        lemma_matches_below_sorted(files, flat, q, (n - 1) as nat);
        let prev = matches_below(files, flat, q, (n - 1) as nat);
        let cur = matches_below(files, flat, q, n);
        if line_matches(files, flat, n - 1, q) {
            assert(cur =~= prev.push((n - 1) as usize));
        } else {
            assert(cur =~= prev);
        }
        assert forall|i: int| 0 <= i < cur.len() implies cur[i] < n by {
            if i < prev.len() {
                assert(cur[i] == prev[i]);
            }
        }
        assert forall|i: int, j: int| 0 <= i < j < cur.len() implies cur[i] < cur[j] by {
            if j < prev.len() {
                assert(cur[i] == prev[i] && cur[j] == prev[j]);
            } else {
                assert(cur[i] == prev[i]);
            }
        }
    }
}

/// The state after a key in search mode: Esc cancels, Enter searches and jumps to the
/// first match after the cursor, Backspace and characters edit the query.
pub open spec fn command_step(files: Seq<DiffFile>, flat: Seq<FlatLine>, s: UiState, key: KeyPress) -> UiState {
    match key.code {
        KeyCode::Esc => UiState { mode: Mode::Normal, search_query: seq![], ..s },
        KeyCode::Enter => {
            let m = search_results(files, flat, s.search_query);
            UiState { search_matches: m, cursor: next_match_cursor(m, s.cursor), mode: Mode::Normal, ..s }
        },
        KeyCode::Backspace => UiState {
            search_query: if s.search_query.len() > 0 { s.search_query.drop_last() } else { s.search_query },
            ..s
        },
        KeyCode::Char(c) => UiState { search_query: s.search_query.push(c), ..s },
        _ => s,
    }
}

impl App {
    /// Finds the lines that contain the search query, ignoring case.
    pub fn build_search_matches(&mut self)
        ensures
            final(self).ui() == (UiState {
                search_matches: search_results(old(self).files@, old(self).flat_lines@, old(self).search_query@),
                ..old(self).ui()
            }),
            final(self).files == old(self).files,
            final(self).flat_lines == old(self).flat_lines,
            final(self).file_starts == old(self).file_starts,
            final(self).line_counts == old(self).line_counts,
    {
        let found = self.search(self.search_query.as_str());
        self.search_matches = found;
    }

    /// The lines that contain `query`, ignoring case.
    pub fn search(&self, query: &str) -> (r: Vec<usize>)
        ensures
            r@ == search_results(self.files@, self.flat_lines@, query@),
    {
        let mut found: Vec<usize> = Vec::new();
        if query.is_empty() {
            return found;
        }
        let lower = to_lowercase(query);
        let q = chars_of(lower.as_str());
        let n = self.flat_lines.len();
        let mut i: usize = 0;
        while i < n
            invariant
                n == self.flat_lines@.len(),
                i <= n,
                q@ == lowercase(query@),
                found@ == matches_below(self.files@, self.flat_lines@, q@, i as nat),
            decreases n - i,
        {
            match self.get_line(i) {
                Some(line) => {
                    let content = to_lowercase(line.content.as_str());
                    let cv = chars_of(content.as_str());
                    if contains_chars(&cv, &q) {
                        found.push(i);
                    }
                },
                None => {},
            }
            proof {
                assert(found@ =~= matches_below(self.files@, self.flat_lines@, q@, (i + 1) as nat));
            }
            i = i + 1;
        }
        found
    }

    /// Handles a key in search mode.
    pub fn handle_command_key(&mut self, key: KeyPress)
        ensures
            final(self).ui() == command_step(old(self).files@, old(self).flat_lines@, old(self).ui(), key),
            final(self).files == old(self).files,
            final(self).flat_lines == old(self).flat_lines,
            final(self).file_starts == old(self).file_starts,
            final(self).line_counts == old(self).line_counts,
    {
        match key.code {
            KeyCode::Esc => {
                self.mode = Mode::Normal;
                self.search_query = String::new();
            },
            KeyCode::Enter => {
                self.build_search_matches();
                self.jump_next_search_match();
                self.mode = Mode::Normal;
            },
            KeyCode::Backspace => {
                pop_char(&mut self.search_query);
            },
            KeyCode::Char(c) => push_char(&mut self.search_query, c),
            _ => {},
        }
        proof {
            assert(self.ui() =~= command_step(old(self).files@, old(self).flat_lines@, old(self).ui(), key));
        }
    }
}

} // verus!
