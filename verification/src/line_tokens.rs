//! The token data model: atomic rendering fragments and breakable groups.

use vstd::prelude::*;
use vstd::string::StrSliceExecFns;
use vstd::string::StringExecFns;

verus! {

/// One unit of the formatting tree.
///
/// Atoms are opaque text fragments (`DirectPart`), structural punctuation
/// (`Comma`, `Space`) and line-control markers. The soft markers
/// (`SoftNewline`, `SoftIndent`) render differently depending on the
/// enclosing mode: expanded rendering turns them into their hard
/// counterparts (`HardNewline`, `Indent`), collapsed rendering leaves them
/// in place, where they contribute no text. `BreakableEntry` is an ordered
/// sequence of child tokens standing for one breakable construct.
#[derive(Debug, PartialEq)]
pub enum LineToken {
    DirectPart { part: String },
    Comma,
    Space,
    SoftNewline,
    SoftIndent { depth: usize },
    HardNewline,
    Indent { depth: usize },
    BreakableEntry(BreakableEntry),
}

/// One breakable construct: its opening delimiter, its elements with their
/// separators, and its closing delimiter, all as child tokens.
#[derive(Debug, PartialEq)]
pub struct BreakableEntry {
    pub tokens: Vec<LineToken>,
}

/// A sequence of `n` space characters, the expanded rendering of an indent
/// step of depth `n`.
pub open spec fn spaces(n: nat) -> Seq<char> {
    Seq::new(n, |i: int| ' ')
}

/// The final textual form of a single token, independent of any mode: the
/// soft markers always render as nothing, their hard counterparts as a line
/// break and as indentation.
pub open spec fn token_text(t: LineToken) -> Seq<char> {
    match t {
        LineToken::DirectPart { part } => part@,
        LineToken::Comma => seq![','],
        LineToken::Space => seq![' '],
        LineToken::SoftNewline => Seq::empty(),
        LineToken::SoftIndent { depth: _ } => Seq::empty(),
        LineToken::HardNewline => seq!['\n'],
        LineToken::Indent { depth } => spaces(depth as nat),
        LineToken::BreakableEntry(_) => Seq::empty(),
    }
}

/// Total number of tokens in a sequence, counting the children of breakable
/// entries; the termination measure for every traversal of the tree.
pub open spec fn seq_size(s: Seq<LineToken>) -> nat
    decreases s,
{
    if s.len() == 0 {
        0
    } else {
        (match s[0] {
            LineToken::BreakableEntry(be) => 1 + seq_size(be.tokens@),
            _ => 1nat,
        }) + seq_size(s.drop_first())
    }
}

/// The text a token sequence occupies when every token is rendered in
/// collapsed mode and concatenated; a breakable entry contributes the
/// collapsed text of its children, trailing artifacts included.
pub open spec fn single_line_chars(s: Seq<LineToken>) -> Seq<char>
    decreases seq_size(s),
{
    if s.len() == 0 {
        Seq::empty()
    } else {
        (match s[0] {
            LineToken::BreakableEntry(be) => single_line_chars(be.tokens@),
            t => token_text(t),
        }) + single_line_chars(s.drop_first())
    }
}

/// Whether a token is rendered line control: a real line break or real
/// indentation. Only expanded rendering produces these; an input tree from
/// the upstream layout stage carries soft markers instead.
pub open spec fn is_line_control(t: LineToken) -> bool {
    t is HardNewline || t is Indent
}

/// Whether a token tree carries no rendered line control anywhere, down
/// through the children of its breakable entries; this holds of every tree
/// the upstream layout stage produces, whose line control is all soft.
pub open spec fn no_hard_markers(s: Seq<LineToken>) -> bool
    decreases seq_size(s),
{
    if s.len() == 0 {
        true
    } else {
        (match s[0] {
            LineToken::BreakableEntry(be) => no_hard_markers(be.tokens@),
            t => !is_line_control(t),
        }) && no_hard_markers(s.drop_first())
    }
}

/// Whether a token is an empty opaque fragment: the placeholder a collapsed
/// breakable entry leaves just before its closing delimiter.
pub open spec fn is_empty_direct_spec(t: LineToken) -> bool {
    match t {
        LineToken::DirectPart { part } => part@.len() == 0,
        _ => false,
    }
}

/// The expanded-mode conversion of a single non-group token: the soft
/// markers become real line breaks and indentation, everything else is kept.
pub open spec fn as_multi_line_spec(t: LineToken) -> LineToken {
    match t {
        LineToken::SoftNewline => LineToken::HardNewline,
        LineToken::SoftIndent { depth } => LineToken::Indent { depth },
        _ => t,
    }
}

/// The collapsed-mode conversion of a single non-group token: every token is
/// kept as it stands; the soft markers then contribute no text.
pub open spec fn as_single_line_spec(t: LineToken) -> LineToken {
    t
}

/// Builds the string of `n` spaces.
fn spaces_string(n: usize) -> (s: String)
    ensures
        s@ == spaces(n as nat),
{
    let mut s = String::new();
    let mut i: usize = 0;
    while i < n
        invariant
            i <= n,
            s@ == spaces(i as nat),
        decreases n - i,
    {
        s.append(" ");
        proof {
            reveal_strlit(" ");
            assert(s@ =~= spaces((i + 1) as nat));
        }
        i = i + 1;
    }
    s
}

impl LineToken {
    /// The token as it is to appear inside an expanded (multi-line) stretch
    /// of output.
    pub fn as_multi_line(self) -> (r: LineToken)
        ensures
            r == as_multi_line_spec(self),
    {
        match self {
            LineToken::SoftNewline => LineToken::HardNewline,
            LineToken::SoftIndent { depth } => LineToken::Indent { depth },
            t => t,
        }
    }

    /// The token as it is to appear inside a collapsed (single-line) stretch
    /// of output.
    pub fn as_single_line(self) -> (r: LineToken)
        ensures
            r == as_single_line_spec(self),
    {
        self
    }

    /// The final textual form of the token; after rendering no further mode
    /// decision is made, so this is a function of the token alone.
    pub fn to_string(&self) -> (s: String)
        ensures
            s@ == token_text(*self),
    {
        match self {
            LineToken::DirectPart { part } => part.clone(),
            LineToken::Comma => {
                let s = ",".to_owned();
                proof {
                    reveal_strlit(",");
                    assert(s@ =~= seq![',']);
                }
                s
            },
            LineToken::Space => {
                let s = " ".to_owned();
                proof {
                    reveal_strlit(" ");
                    assert(s@ =~= seq![' ']);
                }
                s
            },
            LineToken::SoftNewline => String::new(),
            LineToken::SoftIndent { depth: _ } => String::new(),
            LineToken::HardNewline => {
                let s = "\n".to_owned();
                proof {
                    reveal_strlit("\n");
                    assert(s@ =~= seq!['\n']);
                }
                s
            },
            LineToken::Indent { depth } => spaces_string(*depth),
            LineToken::BreakableEntry(_) => String::new(),
        }
    }

    /// Whether the token is the element separator.
    pub fn is_comma(&self) -> (b: bool)
        ensures
            b == (*self is Comma),
    {
        match self {
            LineToken::Comma => true,
            _ => false,
        }
    }

    /// Whether the token is the inter-element space.
    pub fn is_space(&self) -> (b: bool)
        ensures
            b == (*self is Space),
    {
        match self {
            LineToken::Space => true,
            _ => false,
        }
    }

    /// Whether the token is an empty opaque fragment.
    pub fn is_empty_direct(&self) -> (b: bool)
        ensures
            b == is_empty_direct_spec(*self),
    {
        match self {
            LineToken::DirectPart { part } => part.as_str().is_empty(),
            _ => false,
        }
    }
}

impl BreakableEntry {
    /// Wraps an ordered sequence of child tokens as one breakable construct.
    pub fn new(tokens: Vec<LineToken>) -> (r: BreakableEntry)
        ensures
            r.tokens == tokens,
    {
        BreakableEntry { tokens }
    }

    /// Gives up the entry's children, in order.
    pub fn as_tokens(self) -> (r: Vec<LineToken>)
        ensures
            r == self.tokens,
    {
        self.tokens
    }

    /// The exact character length the entry occupies when every child is
    /// rendered in collapsed mode and concatenated, saturating at
    /// `usize::MAX`. Takes the entry by shared reference: measuring never
    /// changes the tree, and two calls return the same value.
    pub fn single_line_string_length(&self) -> (n: usize)
        ensures
            n as int == vstd::math::min(
                single_line_chars(self.tokens@).len() as int,
                usize::MAX as int,
            ),
    {
        proof {
            assert(self.tokens@.skip(0) =~= self.tokens@);
        }
        single_line_len_from(&self.tokens, 0)
    }
}

/// Collapsed character length of the token suffix starting at `from`,
/// saturating at `usize::MAX`.
fn single_line_len_from(tokens: &Vec<LineToken>, from: usize) -> (n: usize)
    requires
        from <= tokens@.len(),
    ensures
        n as int == vstd::math::min(
            single_line_chars(tokens@.skip(from as int)).len() as int,
            usize::MAX as int,
        ),
    decreases seq_size(tokens@.skip(from as int)),
{
    if from == tokens.len() {
        assert(single_line_chars(tokens@.skip(from as int)) =~= Seq::empty());
        return 0;
    }
    proof {
        assert(tokens@.skip(from as int).drop_first() =~= tokens@.skip(from as int + 1));
        assert(tokens@.skip(from as int)[0] == tokens@[from as int]);
    }
    let piece: usize = match &tokens[from] {
        LineToken::BreakableEntry(be) => {
            proof {
                assert(be.tokens@.skip(0) =~= be.tokens@);
            }
            single_line_len_from(&be.tokens, 0)
        },
        t => {
            let s = t.to_string();
            s.as_str().unicode_len()
        },
    };
    let rest = single_line_len_from(tokens, from + 1);
    if piece <= usize::MAX - rest {
        piece + rest
    } else {
        usize::MAX
    }
}

} // verus!
