use vstd::prelude::*;
use vstd::string::StringExecFns;
use crate::syntax_kind::{kind_index, SyntaxKind};
use crate::token::Span;

verus! {

/// One instruction of the strictly well-nested sequence the linearizer
/// hands to the tree service: open a node, add one leaf with its exact
/// aggregated text, or close the innermost open node.
#[derive(Debug, PartialEq, Eq)]
pub enum TreeInstr {
    StartNode { kind: SyntaxKind },
    Token { kind: SyntaxKind, text: String },
    FinishNode,
}

/// The raw shape of one instruction, as the tree service sees it.
pub open spec fn instr_raw(i: TreeInstr) -> (u16, u16, Seq<char>) {
    match i {
        TreeInstr::StartNode { kind } => (0u16, kind_index(kind) as u16, Seq::<char>::empty()),
        TreeInstr::Token { kind, text } => (1u16, kind_index(kind) as u16, text@),
        TreeInstr::FinishNode => (2u16, 0u16, Seq::<char>::empty()),
    }
}

pub open spec fn instrs_raw(instrs: Seq<TreeInstr>) -> Seq<(u16, u16, Seq<char>)> {
    instrs.map_values(|i: TreeInstr| instr_raw(i))
}

/// The concatenated text of the leaves among the first `k` instructions.
pub open spec fn log_text(log: Seq<(u16, u16, Seq<char>)>, k: int) -> Seq<char>
    decreases k,
{
    if k <= 0 {
        Seq::empty()
    } else {
        log_text(log, k - 1) + if log[k - 1].0 == 1 {
            log[k - 1].2
        } else {
            Seq::<char>::empty()
        }
    }
}

/// A diagnostic: a human-readable message and the byte range it refers to.
/// The message text is the contract; there are no error codes.
#[derive(Debug, PartialEq, Eq)]
pub struct ParseError {
    pub message: String,
    pub span: Span,
}

/// What one parse produces: the immutable tree the external service built,
/// the instruction sequence that built it (the tree's observable shape),
/// and the ordered diagnostics.  Read-only afterwards.
pub struct Output {
    pub green_node: rowan::GreenNode,
    pub errors: Vec<ParseError>,
    pub instrs: Vec<TreeInstr>,
}

impl Output {
    /// The concatenation of every leaf's text, in order.  For an output of
    /// the full pipeline this reproduces the source text exactly.
    pub fn leaf_text(&self) -> (r: String)
        ensures
            r@ == log_text(instrs_raw(self.instrs@), self.instrs@.len() as int),
    {
        let ghost log = instrs_raw(self.instrs@);
        let mut out = String::new();
        let mut i: usize = 0;
        while i < self.instrs.len()
            invariant
                0 <= i <= self.instrs@.len(),
                log == instrs_raw(self.instrs@),
                out@ == log_text(log, i as int),
            decreases self.instrs@.len() - i,
        {
            match &self.instrs[i] {
                TreeInstr::Token { text, .. } => {
                    out.append(text.as_str());
                },
                _ => {},
            }
            proof {
                assert(log[i as int] == instr_raw(self.instrs@[i as int]));
            }
            i += 1;
        }
        out
    }
}

/// One decimal digit as text.
fn digit_str(d: usize) -> (r: &'static str)
    requires
        d < 10,
    ensures
        r@ == digit_text(d),
{
    match d {
        0 => "0",
        1 => "1",
        2 => "2",
        3 => "3",
        4 => "4",
        5 => "5",
        6 => "6",
        7 => "7",
        8 => "8",
        _ => "9",
    }
}

/// A decimal rendering of `x`.
fn usize_to_string(x: usize) -> (r: String)
    ensures
        r@.len() >= 1,
{
    if x == 0 {
        let r = String::from_str("0");
        proof {
            reveal_strlit("0");
        }
        return r;
    }
    let mut digits: Vec<usize> = Vec::new();
    let mut v = x;
    while v > 0
        invariant
            digits@.len() >= if v < x { 1int } else { 0int },
            v <= x,
            forall|j: int| 0 <= j < digits@.len() ==> #[trigger] digits@[j] < 10,
        decreases v,
    {
        digits.push(v % 10);
        v = v / 10;
    }
    let mut out = String::new();
    let mut i = digits.len();
    while i > 0
        invariant
            i <= digits@.len(),
            forall|j: int| 0 <= j < digits@.len() ==> #[trigger] digits@[j] < 10,
            out@.len() >= digits@.len() - i,
        decreases i,
    {
        i = i - 1;
        let d = digits[i];
        out.append(digit_str(d));
        proof {
            lemma_digit_nonempty(d);
        }
    }
    out
}

proof fn lemma_digit_nonempty(d: usize)
    requires
        d < 10,
    ensures
        digit_text(d).len() == 1,
{
    reveal_strlit("0");
    reveal_strlit("1");
    reveal_strlit("2");
    reveal_strlit("3");
    reveal_strlit("4");
    reveal_strlit("5");
    reveal_strlit("6");
    reveal_strlit("7");
    reveal_strlit("8");
    reveal_strlit("9");
}

pub open spec fn digit_text(d: usize) -> Seq<char> {
    if d == 0 {
        "0"@
    } else if d == 1 {
        "1"@
    } else if d == 2 {
        "2"@
    } else if d == 3 {
        "3"@
    } else if d == 4 {
        "4"@
    } else if d == 5 {
        "5"@
    } else if d == 6 {
        "6"@
    } else if d == 7 {
        "7"@
    } else if d == 8 {
        "8"@
    } else {
        "9"@
    }
}

/// Append `text` with the usual debug escapes for quotes, backslashes, and
/// the common control characters.
fn append_escaped(out: &mut String, text: &str) {
    let n = text.unicode_len();
    let mut run_start: usize = 0;
    let mut j: usize = 0;
    while j < n
        invariant
            run_start <= j <= n,
            n == text@.len(),
        decreases n - j,
    {
        let c = text.get_char(j);
        let esc: Option<&str> = if c == '\"' {
            Some("\\\"")
        } else if c == '\\' {
            Some("\\\\")
        } else if c == '\n' {
            Some("\\n")
        } else if c == '\r' {
            Some("\\r")
        } else if c == '\t' {
            Some("\\t")
        } else {
            None
        };
        match esc {
            Some(e) => {
                out.append(text.substring_char(run_start, j));
                out.append(e);
                run_start = j + 1;
            },
            None => {},
        }
        j += 1;
    }
    out.append(text.substring_char(run_start, n));
}

impl Output {
    /// A plain-text rendering of the tree: one line per node
    /// (`Kind@start..end`) and per leaf (`Kind@start..end "text"`), children
    /// indented two spaces, offsets in bytes.  Formatting is a debugging
    /// aid, not part of the parsing contract.
    pub fn debug_tree(&self) -> (r: String) {
        let n = self.instrs.len();

        // byte offset in front of every instruction
        let mut before: Vec<usize> = Vec::new();
        let mut offset: usize = 0;
        let mut i: usize = 0;
        while i < n
            invariant
                before@.len() == i,
                i <= n,
                n == self.instrs@.len(),
            decreases n - i,
        {
            before.push(offset);
            match &self.instrs[i] {
                TreeInstr::Token { text, .. } => {
                    let l = text.as_str().len();
                    offset = match offset.checked_add(l) {
                        Some(o) => o,
                        None => offset,
                    };
                },
                _ => {},
            }
            i += 1;
        }

        // end offset of every node: the offset in front of its finish
        let mut ends: Vec<usize> = Vec::new();
        let mut i2: usize = 0;
        while i2 < n
            invariant
                ends@.len() == i2,
                i2 <= n,
            decreases n - i2,
        {
            ends.push(offset);
            i2 += 1;
        }
        let mut stack: Vec<usize> = Vec::new();
        let mut i3: usize = 0;
        while i3 < n
            invariant
                i3 <= n,
                n == self.instrs@.len(),
                before@.len() == n,
                ends@.len() == n,
                forall|j: int| 0 <= j < stack@.len() ==> #[trigger] stack@[j] < n,
            decreases n - i3,
        {
            match &self.instrs[i3] {
                TreeInstr::StartNode { .. } => {
                    stack.push(i3);
                },
                TreeInstr::FinishNode => {
                    match stack.pop() {
                        Some(j) => {
                            ends[j] = before[i3];
                        },
                        None => {},
                    }
                },
                _ => {},
            }
            i3 += 1;
        }

        // render the lines
        let mut out = String::new();
        let mut depth: usize = 0;
        let mut first = true;
        let mut i4: usize = 0;
        while i4 < n
            invariant
                i4 <= n,
                n == self.instrs@.len(),
                before@.len() == n,
                ends@.len() == n,
            decreases n - i4,
        {
            match &self.instrs[i4] {
                TreeInstr::StartNode { kind } => {
                    if !first {
                        out.append("\n");
                    }
                    first = false;
                    let mut d: usize = 0;
                    while d < depth
                        decreases depth - d,
                    {
                        out.append("  ");
                        d += 1;
                    }
                    out.append(crate::syntax_kind::kind_name(*kind));
                    out.append("@");
                    let s = usize_to_string(before[i4]);
                    out.append(s.as_str());
                    out.append("..");
                    let e = usize_to_string(ends[i4]);
                    out.append(e.as_str());
                    depth = match depth.checked_add(1) {
                        Some(dd) => dd,
                        None => depth,
                    };
                },
                TreeInstr::Token { kind, text } => {
                    if !first {
                        out.append("\n");
                    }
                    first = false;
                    let mut d: usize = 0;
                    while d < depth
                        decreases depth - d,
                    {
                        out.append("  ");
                        d += 1;
                    }
                    out.append(crate::syntax_kind::kind_name(*kind));
                    out.append("@");
                    let s = usize_to_string(before[i4]);
                    out.append(s.as_str());
                    out.append("..");
                    let l = text.as_str().len();
                    let e = usize_to_string(
                        match before[i4].checked_add(l) {
                            Some(x) => x,
                            None => before[i4],
                        },
                    );
                    out.append(e.as_str());
                    out.append(" \"");
                    append_escaped(&mut out, text.as_str());
                    out.append("\"");
                },
                TreeInstr::FinishNode => {
                    if depth > 0 {
                        depth = depth - 1;
                    }
                },
            }
            i4 += 1;
        }
        out
    }
}

} // verus!
