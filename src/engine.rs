use vstd::prelude::*;

use crate::filter::{filter_headers_to_parents, is_heading, parent_chain};
use crate::metrics::{chars_of, count_leading_whitespace, indent_width, is_space, is_space_char};

verus! {

/// Where a context line stands relative to the match it was supplied for.
#[derive(Clone, Copy, Debug, PartialEq, Eq)]
pub enum ContextKind {
    Before,
    After,
    Other,
}

/// `s` without its trailing whitespace.
pub open spec fn trim_end(s: Seq<char>) -> Seq<char>
    decreases s.len(),
{
    if s.len() > 0 && is_space_char(s.last()) {
        trim_end(s.drop_last())
    } else {
        s
    }
}

/// The text that opens the output of a document.
pub open spec fn separator(name: Seq<char>) -> Seq<char> {
    seq!['\n', '\n', '-', '-'] + name + seq!['-', '-', '\n']
}

/// Every document's output holds `--name--`, whether or not a task follows:
/// the separator carries it right after its two leading newlines.
pub proof fn lemma_separator_names_document(name: Seq<char>)
    ensures
        separator(name).subrange(2, name.len() as int + 6) == seq!['-', '-'] + name + seq!['-', '-'],
{
    assert(separator(name).subrange(2, name.len() as int + 6) =~= seq!['-', '-'] + name + seq!['-', '-']);
}

/// The text printed for a task line: a blank line when something was printed
/// before and the chain is not empty, then the ancestor chain, then the task
/// line without trailing whitespace and a newline.
pub open spec fn task_block(emitted: bool, chain: Seq<char>, line: Seq<char>) -> Seq<char> {
    (if emitted && chain.len() > 0 {
        seq!['\n']
    } else {
        Seq::empty()
    }) + chain + trim_end(line) + seq!['\n']
}

/// One After-context line: with the continuation active and the line indented
/// deeper than the task, the line is printed and the continuation goes on;
/// otherwise nothing is printed and the continuation ends.
pub open spec fn after_step(active: bool, indent: nat, line: Seq<char>) -> (bool, Seq<char>) {
    if active && indent_width(line) > indent {
        (true, line)
    } else {
        (false, Seq::empty())
    }
}

/// What a run of After-context lines prints, one step after another.
pub open spec fn after_run(active: bool, indent: nat, lines: Seq<Seq<char>>) -> Seq<char>
    decreases lines.len(),
{
    if lines.len() == 0 {
        Seq::empty()
    } else {
        after_step(active, indent, lines[0]).1 + after_run(
            after_step(active, indent, lines[0]).0,
            indent,
            lines.drop_first(),
        )
    }
}

/// Once a continuation has ended, After-context lines print nothing; and after
/// a line that is not indented deeper than the task, none of the lines that
/// follow it is printed, however deep.
pub proof fn lemma_continuation_ends(indent: nat, lines: Seq<Seq<char>>, k: int)
    requires
        0 <= k < lines.len(),
        indent_width(lines[k]) <= indent,
    ensures
        after_run(false, indent, lines) == Seq::<char>::empty(),
        after_run(true, indent, lines) == after_run(true, indent, lines.take(k)),
    decreases k,
{
    lemma_inactive_silent(indent, lines);
    if k == 0 {
        lemma_inactive_silent(indent, lines.drop_first());
        assert(lines.take(0).len() == 0);
        assert(after_run(true, indent, lines) =~= Seq::<char>::empty());
    } else {
        let rest = lines.drop_first();
        lemma_continuation_ends(indent, rest, k - 1);
        assert(lines.take(k).drop_first() =~= rest.take(k - 1));
        assert(lines.take(k)[0] == lines[0]);
        if !(indent_width(lines[0]) > indent) {
            lemma_inactive_silent(indent, rest.take(k - 1));
        }
    }
}

proof fn lemma_inactive_silent(indent: nat, lines: Seq<Seq<char>>)
    ensures
        after_run(false, indent, lines) == Seq::<char>::empty(),
    decreases lines.len(),
{
    if lines.len() > 0 {
        lemma_inactive_silent(indent, lines.drop_first());
        assert(after_run(false, indent, lines) =~= Seq::<char>::empty());
    }
}

/// `s` without its trailing whitespace.
fn trim_end_str(s: &str) -> (r: &str)
    ensures
        r@ == trim_end(s@),
{
    let cs = chars_of(s);
    let n = cs.len();
    let mut j: usize = n;
    assert(cs@.subrange(0, n as int) =~= s@);
    while j > 0 && is_space(cs[j - 1])
        invariant
            j <= n,
            n == cs@.len(),
            cs@ == s@,
            trim_end(s@) == trim_end(s@.subrange(0, j as int)),
        decreases j,
    {
        proof {
            let t = s@.subrange(0, j as int);
            assert(t.drop_last() =~= s@.subrange(0, j - 1));
        }
        j = j - 1;
    }
    proof {
        let t = s@.subrange(0, j as int);
        if j > 0 {
            assert(t.last() == s@[j - 1]);
        }
    }
    s.substring_char(0, j)
}

/// The state of the task miner over one document. It is fed the lines that
/// the upstream matcher found (headings and tasks) and the context lines
/// around them, and hands back the text to write for each.
pub struct TaskOutput {
    /// Display name of the document.
    pub file: String,
    last_match_indent: usize,
    process_after: bool,
    unprinted_headers: String,
    printed: bool,
}

impl TaskOutput {
    /// Display name of the document.
    pub closed spec fn name(&self) -> Seq<char> {
        self.file@
    }

    /// Headings seen since the last task, in document order.
    pub closed spec fn pending(&self) -> Seq<char> {
        self.unprinted_headers@
    }

    /// Indentation width of the last task line.
    pub closed spec fn last_indent(&self) -> nat {
        self.last_match_indent as nat
    }

    /// Whether After-context lines are still printed as continuation.
    pub closed spec fn active(&self) -> bool {
        self.process_after
    }

    /// Whether a task has been printed in this run.
    pub closed spec fn emitted(&self) -> bool {
        self.printed
    }

    /// A fresh state for the document named `file`; `printed` tells whether a
    /// task was printed for an earlier document of the run.
    pub fn new(file: String, printed: bool) -> (r: TaskOutput)
        ensures
            r.name() == file@,
            r.pending() == Seq::<char>::empty(),
            r.last_indent() == 0,
            !r.active(),
            r.emitted() == printed,
    {
        TaskOutput {
            file,
            last_match_indent: 0,
            process_after: false,
            unprinted_headers: String::new(),
            printed,
        }
    }

    /// Whether a task has been printed in this run, for the next document.
    pub fn has_printed(&self) -> (r: bool)
        ensures
            r == self.emitted(),
    {
        self.printed
    }

    /// The separator written at the start of every document.
    pub fn begin(&self) -> (r: String)
        ensures
            r@ == separator(self.name()),
    {
        let mut r = String::from_str("\n\n--");
        r.append(self.file.as_str());
        r.append("--\n");
        proof {
            reveal_strlit("\n\n--");
            reveal_strlit("--\n");
            assert(r@ =~= separator(self.file@));
        }
        r
    }

    /// A matched line. A heading is kept for later; a task is printed after
    /// its ancestor chain, and starts a continuation.
    pub fn matched(&mut self, line: &str) -> (r: String)
        requires
            line@.len() <= usize::MAX / 4,
        ensures
            final(self).name() == old(self).name(),
            if is_heading(line@) {
                &&& final(self).pending() == old(self).pending() + line@
                &&& final(self).last_indent() == old(self).last_indent()
                &&& final(self).active() == old(self).active()
                &&& final(self).emitted() == old(self).emitted()
                &&& r@ == Seq::<char>::empty()
            } else {
                &&& final(self).pending() == Seq::<char>::empty()
                &&& final(self).last_indent() == indent_width(line@)
                &&& final(self).active()
                &&& final(self).emitted()
                &&& r@ == task_block(old(self).emitted(), parent_chain(old(self).pending()), line@)
            },
    {
        if line.unicode_len() > 0 && line.get_char(0) == '#' {
            self.unprinted_headers.append(line);
            String::new()
        } else {
            self.last_match_indent = count_leading_whitespace(line);
            self.process_after = true;
            let chain = filter_headers_to_parents(self.unprinted_headers.as_str());
            let mut out = String::new();
            if self.printed && chain.as_str().unicode_len() > 0 {
                out.append("\n");
            }
            out.append(chain.as_str());
            out.append(trim_end_str(line));
            out.append("\n");
            proof {
                reveal_strlit("\n");
                assert(out@ =~= task_block(self.printed, chain@, line@));
            }
            self.printed = true;
            self.unprinted_headers = String::new();
            out
        }
    }

    /// A context line: an After line continues the last task while it is
    /// indented deeper than the task; the first that is not ends the
    /// continuation. Other lines print nothing.
    pub fn context(&mut self, kind: ContextKind, line: &str) -> (r: String)
        requires
            line@.len() <= usize::MAX / 4,
        ensures
            final(self).name() == old(self).name(),
            final(self).pending() == old(self).pending(),
            final(self).last_indent() == old(self).last_indent(),
            final(self).emitted() == old(self).emitted(),
            kind == ContextKind::After ==> (final(self).active(), r@) == after_step(
                old(self).active(),
                old(self).last_indent(),
                line@,
            ),
            kind != ContextKind::After ==> final(self).active() == old(self).active() && r@
                == Seq::<char>::empty(),
    {
        match kind {
            ContextKind::After => {
                if self.process_after && count_leading_whitespace(line) > self.last_match_indent {
                    String::from_str(line)
                } else {
                    self.process_after = false;
                    String::new()
                }
            },
            ContextKind::Before => String::new(),
            ContextKind::Other => String::new(),
        }
    }
}

} // verus!
