//! Lexical primitives shared by every parser of the expression language:
//! whitespace skipping, relational/boolean operator tokens and quoted
//! string literals with escape processing.
//!
//! Every parser works on a byte buffer and a cursor position.  Each exec
//! parser is specified against a spec-level parse function over the byte
//! sequence; a result of `None` means the token was not recognised at that
//! position, `Some((v, p))` means the token `v` was recognised and the
//! cursor advanced to `p`.

use vstd::prelude::*;

verus! {

/// Boolean operators combining two sub-expressions.
#[derive(Debug, Clone, Copy, PartialEq, Eq, Structural)]
pub enum BooleanOp {
    And,
    Or,
}

/// Relational operators; the string domain uses `==, !=, =^, =$, =*`,
/// the numeric domain `==, !=, >, >=, <, <=`.
#[derive(Debug, Clone, Copy, PartialEq, Eq, Structural)]
pub enum RelationalOp {
    Eq,
    Ne,
    Gt,
    Ge,
    Lt,
    Le,
    StartsWith,
    EndsWith,
    Similar,
}

impl RelationalOp {
    /// The surface token of the operator.
    pub open spec fn spec_token(self) -> Seq<char> {
        match self {
            RelationalOp::Eq => "=="@,
            RelationalOp::Ne => "!="@,
            RelationalOp::Gt => ">"@,
            RelationalOp::Ge => ">="@,
            RelationalOp::Lt => "<"@,
            RelationalOp::Le => "<="@,
            RelationalOp::StartsWith => "=^"@,
            RelationalOp::EndsWith => "=$"@,
            RelationalOp::Similar => "=*"@,
        }
    }

    /// Render the operator as its surface token.
    pub fn token(self) -> (r: &'static str)
        ensures
            r@ == self.spec_token(),
    {
        match self {
            RelationalOp::Eq => "==",
            RelationalOp::Ne => "!=",
            RelationalOp::Gt => ">",
            RelationalOp::Ge => ">=",
            RelationalOp::Lt => "<",
            RelationalOp::Le => "<=",
            RelationalOp::StartsWith => "=^",
            RelationalOp::EndsWith => "=$",
            RelationalOp::Similar => "=*",
        }
    }
}

/// The whitespace bytes tolerated around tokens.
pub open spec fn is_ws(b: u8) -> bool {
    b == 32 || b == 9 || b == 10 || b == 13
}

/// Cursor position after skipping a run of whitespace.
pub open spec fn spec_skip_ws(s: Seq<u8>, pos: int) -> int
    decreases s.len() - pos,
{
    if pos < s.len() && 0 <= pos && is_ws(s[pos]) {
        spec_skip_ws(s, pos + 1)
    } else {
        pos
    }
}

pub proof fn lemma_skip_ws_bounds(s: Seq<u8>, pos: int)
    requires
        0 <= pos <= s.len(),
    ensures
        pos <= spec_skip_ws(s, pos) <= s.len(),
    decreases s.len() - pos,
{
    if pos < s.len() && is_ws(s[pos]) {
        lemma_skip_ws_bounds(s, pos + 1);
    }
}

/// Skip the whitespace run starting at `pos`.
pub fn skip_ws(s: &Vec<u8>, pos: usize) -> (r: usize)
    requires
        pos <= s.len(),
    ensures
        r == spec_skip_ws(s@, pos as int),
        pos <= r <= s.len(),
{
    let mut i: usize = pos;
    while i < s.len() && (s[i] == 32 || s[i] == 9 || s[i] == 10 || s[i] == 13)
        invariant
            pos <= i <= s.len(),
            spec_skip_ws(s@, pos as int) == spec_skip_ws(s@, i as int),
        decreases s.len() - i,
    {
        i = i + 1;
    }
    i
}

/// Recognise a relational operator of the string domain.
pub open spec fn spec_parse_rel_op_str(s: Seq<u8>, pos: int) -> Option<(RelationalOp, int)> {
    if 0 <= pos && pos + 2 <= s.len() {
        let a = s[pos];
        let b = s[pos + 1];
        if a == 61 && b == 61 {
            Some((RelationalOp::Eq, pos + 2))
        } else if a == 33 && b == 61 {
            Some((RelationalOp::Ne, pos + 2))
        } else if a == 61 && b == 94 {
            Some((RelationalOp::StartsWith, pos + 2))
        } else if a == 61 && b == 36 {
            Some((RelationalOp::EndsWith, pos + 2))
        } else if a == 61 && b == 42 {
            Some((RelationalOp::Similar, pos + 2))
        } else {
            None
        }
    } else {
        None
    }
}

/// Parse a relational operator usable for string comparisons.
pub fn parse_relational_op_str(s: &Vec<u8>, pos: usize) -> (r: Option<(RelationalOp, usize)>)
    requires
        pos <= s.len(),
    ensures
        lift_pos(r) == spec_parse_rel_op_str(s@, pos as int),
{
    if s.len() - pos >= 2 {
        let a = s[pos];
        let b = s[pos + 1];
        if a == 61 && b == 61 {
            Some((RelationalOp::Eq, pos + 2))
        } else if a == 33 && b == 61 {
            Some((RelationalOp::Ne, pos + 2))
        } else if a == 61 && b == 94 {
            Some((RelationalOp::StartsWith, pos + 2))
        } else if a == 61 && b == 36 {
            Some((RelationalOp::EndsWith, pos + 2))
        } else if a == 61 && b == 42 {
            Some((RelationalOp::Similar, pos + 2))
        } else {
            None
        }
    } else {
        None
    }
}

/// Recognise a relational operator of the numeric domain; longer tokens
/// (`>=`) are tried before their prefixes (`>`).
pub open spec fn spec_parse_rel_op_usize(s: Seq<u8>, pos: int) -> Option<(RelationalOp, int)> {
    if 0 <= pos && pos + 2 <= s.len() && s[pos] == 61 && s[pos + 1] == 61 {
        Some((RelationalOp::Eq, pos + 2))
    } else if 0 <= pos && pos + 2 <= s.len() && s[pos] == 33 && s[pos + 1] == 61 {
        Some((RelationalOp::Ne, pos + 2))
    } else if 0 <= pos && pos + 2 <= s.len() && s[pos] == 62 && s[pos + 1] == 61 {
        Some((RelationalOp::Ge, pos + 2))
    } else if 0 <= pos && pos + 1 <= s.len() && s[pos] == 62 {
        Some((RelationalOp::Gt, pos + 1))
    } else if 0 <= pos && pos + 2 <= s.len() && s[pos] == 60 && s[pos + 1] == 61 {
        Some((RelationalOp::Le, pos + 2))
    } else if 0 <= pos && pos + 1 <= s.len() && s[pos] == 60 {
        Some((RelationalOp::Lt, pos + 1))
    } else {
        None
    }
}

/// Parse a relational operator usable for count comparisons.
pub fn parse_relational_op_usize(s: &Vec<u8>, pos: usize) -> (r: Option<(RelationalOp, usize)>)
    requires
        pos <= s.len(),
    ensures
        lift_pos(r) == spec_parse_rel_op_usize(s@, pos as int),
{
    if s.len() - pos >= 2 && s[pos] == 61 && s[pos + 1] == 61 {
        Some((RelationalOp::Eq, pos + 2))
    } else if s.len() - pos >= 2 && s[pos] == 33 && s[pos + 1] == 61 {
        Some((RelationalOp::Ne, pos + 2))
    } else if s.len() - pos >= 2 && s[pos] == 62 && s[pos + 1] == 61 {
        Some((RelationalOp::Ge, pos + 2))
    } else if s.len() - pos >= 1 && s[pos] == 62 {
        Some((RelationalOp::Gt, pos + 1))
    } else if s.len() - pos >= 2 && s[pos] == 60 && s[pos + 1] == 61 {
        Some((RelationalOp::Le, pos + 2))
    } else if s.len() - pos >= 1 && s[pos] == 60 {
        Some((RelationalOp::Lt, pos + 1))
    } else {
        None
    }
}

/// Relate an exec parse result to its spec counterpart.
pub open spec fn lift_pos<T>(r: Option<(T, usize)>) -> Option<(T, int)> {
    match r {
        Some((v, p)) => Some((v, p as int)),
        None => None,
    }
}

/// The character an escape sequence `\c` inside a literal quoted with `q`
/// stands for: `\n \r \t \b \f \\ \/` and the quote character itself.
pub open spec fn spec_escape_char(c: u8, q: u8) -> Option<u8> {
    if c == 110 {
        Some(10)
    } else if c == 114 {
        Some(13)
    } else if c == 116 {
        Some(9)
    } else if c == 98 {
        Some(8)
    } else if c == 102 {
        Some(12)
    } else if c == 92 {
        Some(92)
    } else if c == 47 {
        Some(47)
    } else if c == q {
        Some(q)
    } else {
        None
    }
}

/// Content of a literal quoted with `q`, read from `pos` up to the closing
/// quote: plain bytes stand for themselves, escapes are decoded, and a
/// backslash followed by whitespace is consumed contributing nothing.
/// `None` on a malformed escape or an unterminated literal; on success the
/// returned position is that of the closing quote.
pub open spec fn spec_parse_quoted_body(s: Seq<u8>, pos: int, q: u8) -> Option<(Seq<u8>, int)>
    decreases s.len() - pos,
    via spec_parse_quoted_body_dec
{
    if pos < 0 || pos >= s.len() {
        None
    } else if s[pos] == q {
        Some((Seq::empty(), pos))
    } else if s[pos] == 92 {
        if pos + 1 < s.len() && is_ws(s[pos + 1]) {
            spec_parse_quoted_body(s, spec_skip_ws(s, pos + 2), q)
        } else if pos + 1 < s.len() && spec_escape_char(s[pos + 1], q) is Some {
            match spec_parse_quoted_body(s, pos + 2, q) {
                Some((v, p)) => Some((seq![spec_escape_char(s[pos + 1], q)->0] + v, p)),
                None => None,
            }
        } else {
            None
        }
    } else {
        match spec_parse_quoted_body(s, pos + 1, q) {
            Some((v, p)) => Some((seq![s[pos]] + v, p)),
            None => None,
        }
    }
}

#[via_fn]
proof fn spec_parse_quoted_body_dec(s: Seq<u8>, pos: int, q: u8) {
    if 0 <= pos && pos < s.len() && s[pos] != q && s[pos] == 92 && pos + 1 < s.len() && is_ws(
        s[pos + 1],
    ) {
        lemma_skip_ws_bounds(s, pos + 2);
    }
}

/// On success the position returned by `spec_parse_quoted_body` carries the
/// closing quote.
pub proof fn lemma_quoted_body_ends_at_quote(s: Seq<u8>, pos: int, q: u8)
    requires
        spec_parse_quoted_body(s, pos, q) is Some,
    ensures
        pos <= (spec_parse_quoted_body(s, pos, q)->0).1 < s.len(),
        s[(spec_parse_quoted_body(s, pos, q)->0).1] == q,
    decreases s.len() - pos,
{
    if pos < 0 || pos >= s.len() {
    } else if s[pos] == q {
    } else if s[pos] == 92 {
        if pos + 1 < s.len() && is_ws(s[pos + 1]) {
            lemma_skip_ws_bounds(s, pos + 2);
            lemma_quoted_body_ends_at_quote(s, spec_skip_ws(s, pos + 2), q);
        } else if pos + 1 < s.len() && spec_escape_char(s[pos + 1], q) is Some {
            lemma_quoted_body_ends_at_quote(s, pos + 2, q);
        }
    } else {
        lemma_quoted_body_ends_at_quote(s, pos + 1, q);
    }
}

/// A quoted string literal: a single- or double-quoted body; the quote
/// style is fixed by the opening quote.  On success the position is just
/// past the closing quote.
pub open spec fn spec_parse_string(s: Seq<u8>, pos: int) -> Option<(Seq<u8>, int)> {
    if 0 <= pos && pos < s.len() && (s[pos] == 39 || s[pos] == 34) {
        match spec_parse_quoted_body(s, pos + 1, s[pos]) {
            Some((v, p)) => Some((v, p + 1)),
            None => None,
        }
    } else {
        None
    }
}

/// Decode the escape character `c` found after a backslash in a literal
/// quoted with `q`.
fn escape_char(c: u8, q: u8) -> (r: Option<u8>)
    ensures
        r == spec_escape_char(c, q),
{
    if c == 110 {
        Some(10)
    } else if c == 114 {
        Some(13)
    } else if c == 116 {
        Some(9)
    } else if c == 98 {
        Some(8)
    } else if c == 102 {
        Some(12)
    } else if c == 92 {
        Some(92)
    } else if c == 47 {
        Some(47)
    } else if c == q {
        Some(q)
    } else {
        None
    }
}

/// Parse a quoted string literal (single- or double-quoted, with escape
/// processing) starting at `pos`.
pub fn parse_string(s: &Vec<u8>, pos: usize) -> (r: Option<(Vec<u8>, usize)>)
    requires
        pos <= s.len(),
    ensures
        match r {
            Some(v) => spec_parse_string(s@, pos as int) == Some((v.0@, v.1 as int)) && pos < v.1
                <= s.len(),
            None => spec_parse_string(s@, pos as int) is None,
        },
{
    if pos >= s.len() || (s[pos] != 39 && s[pos] != 34) {
        return None;
    }
    let q = s[pos];
    let ghost start = pos + 1;
    let mut acc: Vec<u8> = Vec::new();
    let mut i: usize = pos + 1;
    loop
        invariant
            start == pos + 1,
            pos < i <= s.len(),
            q == s@[pos as int],
            q == 39 || q == 34,
            spec_parse_quoted_body(s@, start, q) == match spec_parse_quoted_body(
                s@,
                i as int,
                q,
            ) {
                Some((v, p)) => Some((acc@ + v, p)),
                None => None::<(Seq<u8>, int)>,
            },
        decreases s.len() - i,
    {
        if i >= s.len() {
            return None;
        }
        let c = s[i];
        if c == q {
            proof {
                assert(spec_parse_quoted_body(s@, i as int, q) == Some(
                    (Seq::<u8>::empty(), i as int),
                ));
                assert(acc@ + Seq::<u8>::empty() =~= acc@);
            }
            return Some((acc, i + 1));
        }
        if c == 92 {
            if i + 1 >= s.len() {
                return None;
            }
            let d = s[i + 1];
            if d == 32 || d == 9 || d == 10 || d == 13 {
                i = skip_ws(s, i + 2);
                proof {
                    lemma_skip_ws_bounds(s@, i as int);
                }
            } else {
                match escape_char(d, q) {
                    Some(ch) => {
                        proof {
                            let b2 = spec_parse_quoted_body(s@, i + 2, q);
                            if b2 is Some {
                                assert(acc@.push(ch) + (b2->0).0 =~= acc@ + (seq![ch] + (b2->0).0));
                            }
                        }
                        acc.push(ch);
                        i = i + 2;
                    },
                    None => {
                        return None;
                    },
                }
            }
        } else {
            proof {
                let b2 = spec_parse_quoted_body(s@, i + 1, q);
                if b2 is Some {
                    assert(acc@.push(c) + (b2->0).0 =~= acc@ + (seq![c] + (b2->0).0));
                }
            }
            acc.push(c);
            i = i + 1;
        }
    }
}

} // verus!
