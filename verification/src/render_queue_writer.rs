//! The renderer and serializer: walks the token tree top-down, decides for
//! every breakable entry whether it fits the width budget, and writes the
//! resulting flat token sequence to a sink.

use vstd::prelude::*;
use crate::line_tokens::BreakableEntry;
use crate::line_tokens::LineToken;
use crate::line_tokens::as_multi_line_spec;
use crate::line_tokens::as_single_line_spec;
use crate::line_tokens::is_empty_direct_spec;
use crate::line_tokens::seq_size;
use crate::line_tokens::single_line_chars;
use crate::line_tokens::token_text;
use crate::sink::Sink;
use crate::sink::WriteError;

verus! {

/// The fixed width budget: a breakable entry whose collapsed form is longer
/// than this many characters is rendered expanded.
pub const MAX_LINE_LENGTH: usize = 80;

/// The rendering mode threaded through every recursive call: expanded
/// (multi-line) or collapsed (single-line).
#[derive(Clone, Copy, Debug)]
pub enum ConvertType {
    MultiLine,
    SingleLine,
}

/// The mode-dependent rendering of a single non-group token.
pub open spec fn convert_spec(t: LineToken, convert_type: ConvertType) -> LineToken {
    match convert_type {
        ConvertType::MultiLine => as_multi_line_spec(t),
        ConvertType::SingleLine => as_single_line_spec(t),
    }
}

/// Whether a rendered sequence ends with the trailing artifact a collapsed
/// entry leaves: separator, inter-element space and empty placeholder, just
/// before the closing delimiter.
pub open spec fn has_trailing_artifact(s: Seq<LineToken>) -> bool {
    &&& s.len() >= 4
    &&& s[s.len() - 4] is Comma
    &&& s[s.len() - 3] is Space
    &&& is_empty_direct_spec(s[s.len() - 2])
}

/// The cleanup a collapsed entry performs on its own rendered output:
/// strip the trailing separator, space and placeholder, keeping the closing
/// delimiter; a sequence without the artifact is left as it stands.
pub open spec fn collapse_cleanup(s: Seq<LineToken>) -> Seq<LineToken> {
    if has_trailing_artifact(s) {
        s.take(s.len() - 4) + seq![s.last()]
    } else {
        s
    }
}

/// The flat rendering of one breakable entry: its own fit decision compares
/// its collapsed length against the width budget, independently of the mode
/// the entry appears in.
pub open spec fn rendered_entry(be: BreakableEntry) -> Seq<LineToken>
    decreases seq_size(be.tokens@) + 1, 0int,
{
    if single_line_chars(be.tokens@).len() > MAX_LINE_LENGTH {
        rendered_toks(be.tokens@, ConvertType::MultiLine)
    } else {
        collapse_cleanup(rendered_toks(be.tokens@, ConvertType::SingleLine))
    }
}

/// The flat rendering of a token sequence under a mode: every breakable
/// entry is rendered by its own fit decision, every other token by the
/// mode-dependent conversion, in order.
pub open spec fn rendered_toks(s: Seq<LineToken>, convert_type: ConvertType) -> Seq<LineToken>
    decreases seq_size(s), 1int,
{
    if s.len() == 0 {
        Seq::empty()
    } else {
        (match s[0] {
            LineToken::BreakableEntry(be) => rendered_entry(be),
            t => seq![convert_spec(t, convert_type)],
        }) + rendered_toks(s.drop_first(), convert_type)
    }
}

/// The concatenated text of an already-rendered flat sequence.
pub open spec fn flat_text(s: Seq<LineToken>) -> Seq<char>
    decreases s.len(),
{
    if s.len() == 0 {
        Seq::empty()
    } else {
        token_text(s[0]) + flat_text(s.drop_first())
    }
}

/// The exact output text of a whole token tree: rendered top-down in
/// expanded mode, then written out token by token.
pub open spec fn rendered_text(s: Seq<LineToken>) -> Seq<char> {
    flat_text(rendered_toks(s, ConvertType::MultiLine))
}

/// Whether a flat sequence holds no breakable entry; rendering always
/// produces such a sequence.
pub open spec fn atoms_only(s: Seq<LineToken>) -> bool {
    forall|i: int| 0 <= i < s.len() ==> !(#[trigger] s[i] is BreakableEntry)
}

/// The text of a concatenation is the concatenation of the texts.
pub proof fn lemma_flat_text_concat(a: Seq<LineToken>, b: Seq<LineToken>)
    ensures
        flat_text(a + b) == flat_text(a) + flat_text(b),
    decreases a.len(),
{
    if a.len() == 0 {
        assert(a + b =~= b);
        assert(flat_text(a) + flat_text(b) =~= flat_text(b));
    } else {
        lemma_flat_text_concat(a.drop_first(), b);
        assert((a + b).drop_first() =~= a.drop_first() + b);
        assert(flat_text(a + b) =~= flat_text(a) + flat_text(b));
    }
}

/// Rendering never leaves a breakable entry in its output: the flat
/// sequence holds converted atoms only.
pub proof fn lemma_rendered_entry_atoms_only(be: BreakableEntry)
    ensures
        atoms_only(rendered_entry(be)),
    decreases seq_size(be.tokens@) + 1, 0int,
{
    lemma_rendered_toks_atoms_only(be.tokens@, ConvertType::MultiLine);
    lemma_rendered_toks_atoms_only(be.tokens@, ConvertType::SingleLine);
    let r = rendered_toks(be.tokens@, ConvertType::SingleLine);
    if !(single_line_chars(be.tokens@).len() > MAX_LINE_LENGTH) && has_trailing_artifact(r) {
        assert forall|i: int| 0 <= i < collapse_cleanup(r).len() implies !(#[trigger] collapse_cleanup(
            r,
        )[i] is BreakableEntry) by {
            if i < r.len() - 4 {
                assert(collapse_cleanup(r)[i] == r[i]);
            } else {
                assert(collapse_cleanup(r)[i] == r[r.len() - 1]);
            }
        }
    }
}

/// Rendering never leaves a breakable entry in its output: the flat
/// sequence holds converted atoms only.
pub proof fn lemma_rendered_toks_atoms_only(s: Seq<LineToken>, convert_type: ConvertType)
    ensures
        atoms_only(rendered_toks(s, convert_type)),
    decreases seq_size(s), 1int,
{
    if s.len() != 0 {
        match s[0] {
            LineToken::BreakableEntry(be) => {
                lemma_rendered_entry_atoms_only(be);
            },
            _ => {},
        }
        lemma_rendered_toks_atoms_only(s.drop_first(), convert_type);
        let first = match s[0] {
            LineToken::BreakableEntry(be) => rendered_entry(be),
            t => seq![convert_spec(t, convert_type)],
        };
        let rest = rendered_toks(s.drop_first(), convert_type);
        assert forall|i: int| 0 <= i < rendered_toks(s, convert_type).len() implies !(
        #[trigger] rendered_toks(s, convert_type)[i] is BreakableEntry) by {
            if i < first.len() {
                assert(rendered_toks(s, convert_type)[i] == first[i]);
            } else {
                assert(rendered_toks(s, convert_type)[i] == rest[i - first.len()]);
            }
        }
    }
}

/// Walks the token tree top-down and writes the exact output text: for each
/// breakable entry it decides between the compact single-line form and the
/// indented multi-line form, then hands the flat sequence to the sink.
pub struct RenderQueueWriter {
    tokens: Vec<LineToken>,
}

impl View for RenderQueueWriter {
    type V = Seq<LineToken>;

    closed spec fn view(&self) -> Seq<LineToken> {
        self.tokens@
    }
}

impl RenderQueueWriter {
    /// Takes exclusive ownership of the token tree to render.
    pub fn new(tokens: Vec<LineToken>) -> (w: RenderQueueWriter)
        ensures
            w@ == tokens@,
    {
        RenderQueueWriter { tokens }
    }

    /// Renders the tree and writes the output text to the sink. On success
    /// the sink has accepted exactly the rendered text, after everything it
    /// had accepted before; on the first failed write, writing stops at
    /// once, so the sink holds the text of a proper prefix of the rendered
    /// tokens and the failure is reported as it came from the sink.
    pub fn write<S: Sink>(self, writer: &mut S) -> (r: Result<(), WriteError>)
        ensures
            r is Ok ==> final(writer).written() == old(writer).written() + rendered_text(self@),
            r is Err ==> exists|k: int|
                0 <= k < rendered_toks(self@, ConvertType::MultiLine).len()
                    && final(writer).written() == old(writer).written() + flat_text(
                    rendered_toks(self@, ConvertType::MultiLine).take(k),
                ),
    {
        let ghost tree = self@;
        let accum = self.render();
        proof {
            lemma_rendered_toks_atoms_only(tree, ConvertType::MultiLine);
        }
        Self::write_final_tokens(writer, accum)
    }

    /// Renders the tree into the flat sequence of final tokens, expanded
    /// mode at the top level.
    pub fn render(self) -> (r: Vec<LineToken>)
        ensures
            r@ == rendered_toks(self@, ConvertType::MultiLine),
    {
        let mut accum: Vec<LineToken> = Vec::new();
        Self::render_as(&mut accum, self.tokens, ConvertType::MultiLine);
        accum
    }

    /// Consumes the token sequence in order, appending each token's
    /// rendering under the current mode; a breakable entry is dispatched to
    /// its own fit decision, whatever the current mode.
    fn render_as(accum: &mut Vec<LineToken>, tokens: Vec<LineToken>, convert_type: ConvertType)
        ensures
            final(accum)@ == old(accum)@ + rendered_toks(tokens@, convert_type),
        decreases seq_size(tokens@), 1int,
    {
        let mut tokens = tokens;
        if tokens.len() == 0 {
            proof {
                assert(accum@ =~= accum@ + rendered_toks(tokens@, convert_type));
            }
            return ;
        }
        let ghost orig = tokens@;
        let next_token = tokens.remove(0);
        proof {
            assert(orig.remove(0) =~= orig.drop_first());
        }
        match next_token {
            LineToken::BreakableEntry(be) => Self::format_breakable_entry(accum, be),
            x => accum.push(
                match convert_type {
                    ConvertType::MultiLine => x.as_multi_line(),
                    ConvertType::SingleLine => x.as_single_line(),
                },
            ),
        }
        Self::render_as(accum, tokens, convert_type);
        proof {
            assert(accum@ =~= old(accum)@ + rendered_toks(orig, convert_type));
        }
    }

    /// Decides one breakable entry: if its collapsed length exceeds the
    /// width budget its children are rendered expanded; otherwise they are
    /// rendered collapsed and the trailing artifact the collapse leaves is
    /// stripped, keeping only the closing delimiter.
    fn format_breakable_entry(accum: &mut Vec<LineToken>, be: BreakableEntry)
        ensures
            final(accum)@ == old(accum)@ + rendered_entry(be),
        decreases seq_size(be.tokens@) + 1, 0int,
    {
        let ghost children = be.tokens@;
        let length = be.single_line_string_length();
        if length > MAX_LINE_LENGTH {
            Self::render_as(accum, be.as_tokens(), ConvertType::MultiLine);
        } else {
            let start = accum.len();
            Self::render_as(accum, be.as_tokens(), ConvertType::SingleLine);
            let ghost contributed = rendered_toks(children, ConvertType::SingleLine);
            let len = accum.len();
            if len - start >= 4 && accum[len - 4].is_comma() && accum[len - 3].is_space()
                && accum[len - 2].is_empty_direct() {
                proof {
                    assert(has_trailing_artifact(contributed));
                }
                accum.remove(len - 2);
                accum.remove(len - 3);
                accum.remove(len - 4);
                proof {
                    assert(accum@ =~= old(accum)@ + (contributed.take(contributed.len() - 4)
                        + seq![contributed.last()]));
                }
            } else {
                proof {
                    assert(!has_trailing_artifact(contributed));
                }
            }
        }
    }

    /// Writes each final token's text to the sink, in order, stopping at
    /// the first failed write and propagating the sink's failure verbatim.
    /// Takes the flat sequence the renderer produced, so every token is an
    /// already-converted atom.
    pub fn write_final_tokens<S: Sink>(writer: &mut S, tokens: Vec<LineToken>) -> (r: Result<
        (),
        WriteError,
    >)
        requires
            atoms_only(tokens@),
        ensures
            r is Ok ==> final(writer).written() == old(writer).written() + flat_text(tokens@),
            r is Err ==> exists|k: int|
                0 <= k < tokens@.len() && final(writer).written() == old(writer).written()
                    + flat_text(tokens@.take(k)),
    {
        let mut i: usize = 0;
        while i < tokens.len()
            invariant
                i <= tokens@.len(),
                writer.written() == old(writer).written() + flat_text(tokens@.take(i as int)),
            decreases tokens@.len() - i,
        {
            let s = tokens[i].to_string();
            match writer.write_str(s.as_str()) {
                Ok(()) => {},
                Err(e) => {
                    return Err(e);
                },
            }
            proof {
                assert(tokens@.take(i + 1) =~= tokens@.take(i as int) + seq![tokens@[i as int]]);
                lemma_flat_text_concat(tokens@.take(i as int), seq![tokens@[i as int]]);
                let single = seq![tokens@[i as int]];
                assert(single.drop_first() =~= Seq::<LineToken>::empty());
                assert(flat_text(single.drop_first()) == Seq::<char>::empty());
                assert(flat_text(single) =~= token_text(tokens@[i as int]));
            }
            i = i + 1;
        }
        proof {
            assert(tokens@.take(tokens@.len() as int) =~= tokens@);
        }
        Ok(())
    }
}

} // verus!
