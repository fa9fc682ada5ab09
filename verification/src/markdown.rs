use vstd::prelude::*;

use crate::annotation::{Annotation, AnnotationView};
use crate::app::annotation_views;
use crate::text::{chars_of, push_char, push_str};

verus! {

/// The heading of the written comments.
pub open spec fn heading() -> Seq<char> {
    "## Review Comments\n"@
}

/// `text` with each of its lines quoted: `> `, the line, a newline.
pub open spec fn quoted(text: Seq<char>) -> Seq<char>
    decreases text.len(),
{
    quote_from(text, 0, true)
}

/// The quoting of `text` from position `i` on, `at_line_start` telling whether a `> `
/// is due before the next character.
pub open spec fn quote_from(text: Seq<char>, i: int, at_line_start: bool) -> Seq<char>
    decreases text.len() - i,
{
    if i < 0 || i >= text.len() {
        if at_line_start { seq![] } else { seq!['\n'] }
    } else {
        let lead = if at_line_start { seq!['>', ' '] } else { seq![] };
        if text[i] == '\n' {
            lead + seq!['\n'] + quote_from(text, i + 1, true)
        } else {
            lead + seq![text[i]] + quote_from(text, i + 1, false)
        }
    }
}

/// One annotation: a `### path:range` heading, the quoted diff lines, a blank line and the comment.
pub open spec fn entry(a: AnnotationView) -> Seq<char> {
    seq!['\n', '#', '#', '#', ' '] + a.file + (if a.display_range.len() > 0 {
        seq![':'] + a.display_range
    } else {
        seq![]
    }) + seq!['\n'] + quoted(a.diff_context) + seq!['\n'] + a.comment + seq!['\n']
}

/// The entries of the annotations, in order.
pub open spec fn entries(anns: Seq<AnnotationView>) -> Seq<char>
    decreases anns.len(),
{
    if anns.len() == 0 {
        seq![]
    } else {
        entries(anns.drop_last()) + entry(anns.last())
    }
}

/// The comments as Markdown: the heading, then an entry per annotation.
pub open spec fn markdown(anns: Seq<AnnotationView>) -> Seq<char> {
    heading() + entries(anns)
}

fn push_quoted(out: &mut String, text: &str)
    ensures
        final(out)@ == old(out)@ + quoted(text@),
{
    let v = chars_of(text);
    let mut at_start = true;
    let mut i: usize = 0;
    while i < v.len()
        invariant
            v@ == text@,
            i <= v@.len(),
            old(out)@ + quoted(text@) == out@ + quote_from(text@, i as int, at_start),
        decreases v@.len() - i,
    {
        let ghost before = out@;
        if at_start {
            push_char(out, '>');
            push_char(out, ' ');
        }
        push_char(out, v[i]);
        proof {
            let lead = if at_start { seq!['>', ' '] } else { seq![] };
            assert(out@ =~= before + lead + seq![text@[i as int]]);
            assert(before + quote_from(text@, i as int, at_start) =~= out@ + quote_from(text@, i + 1, text@[i as int] == '\n'));
        }
        at_start = v[i] == '\n';
        i = i + 1;
    }
    if !at_start {
        push_char(out, '\n');
    }
    proof {
        assert(out@ =~= old(out)@ + quoted(text@));
    }
}

/// Writes the annotations as Markdown (see `markdown`).
pub fn to_markdown(anns: &Vec<Annotation>) -> (r: String)
    ensures
        r@ == markdown(annotation_views(anns@)),
{
    let mut out = String::new();
    push_str(&mut out, "## Review Comments\n");
    let ghost views = annotation_views(anns@);
    let mut k: usize = 0;
    while k < anns.len()
        invariant
            views == annotation_views(anns@),
            k <= anns@.len(),
            out@ == heading() + entries(views.take(k as int)),
        decreases anns@.len() - k,
    {
        let a = &anns[k];
        let ghost before = out@;
        push_char(&mut out, '\n');
        push_char(&mut out, '#');
        push_char(&mut out, '#');
        push_char(&mut out, '#');
        push_char(&mut out, ' ');
        push_str(&mut out, a.file.as_str());
        if !a.display_range.as_str().is_empty() {
            push_char(&mut out, ':');
            push_str(&mut out, a.display_range.as_str());
        }
        push_char(&mut out, '\n');
        push_quoted(&mut out, a.diff_context.as_str());
        push_char(&mut out, '\n');
        push_str(&mut out, a.comment.as_str());
        push_char(&mut out, '\n');
        proof {
            assert(views[k as int] == a@);
            assert(out@ =~= before + entry(a@));
            assert(views.take(k + 1).drop_last() =~= views.take(k as int));
        }
        k = k + 1;
    }
    proof {
        assert(views.take(k as int) =~= views);
    }
    out
}

} // verus!
