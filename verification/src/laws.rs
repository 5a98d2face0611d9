//! Laws of the renderer: how a breakable entry's fit decision shows in the
//! rendered output, and that the decision is local to the entry.

use vstd::prelude::*;
use crate::line_tokens::BreakableEntry;
use crate::line_tokens::LineToken;
use crate::line_tokens::is_line_control;
use crate::line_tokens::no_hard_markers;
use crate::line_tokens::seq_size;
use crate::line_tokens::single_line_chars;
use crate::render_queue_writer::ConvertType;
use crate::render_queue_writer::MAX_LINE_LENGTH;
use crate::render_queue_writer::collapse_cleanup;
use crate::render_queue_writer::convert_spec;
use crate::render_queue_writer::has_trailing_artifact;
use crate::render_queue_writer::rendered_entry;
use crate::render_queue_writer::rendered_toks;

verus! {

/// Rendering concatenates: the flat rendering of a sequence is the
/// concatenation of the flat renderings of its parts, under either mode.
pub proof fn lemma_rendered_toks_concat(a: Seq<LineToken>, b: Seq<LineToken>, ct: ConvertType)
    ensures
        rendered_toks(a + b, ct) == rendered_toks(a, ct) + rendered_toks(b, ct),
    decreases a.len(),
{
    if a.len() == 0 {
        assert(a + b =~= b);
        assert(rendered_toks(a, ct) + rendered_toks(b, ct) =~= rendered_toks(b, ct));
    } else {
        lemma_rendered_toks_concat(a.drop_first(), b, ct);
        assert((a + b).drop_first() =~= a.drop_first() + b);
        assert(rendered_toks(a + b, ct) =~= rendered_toks(a, ct) + rendered_toks(b, ct));
    }
}

/// What one token contributes to the flat rendering under a mode: a
/// breakable entry its own decided rendering, any other token its
/// mode-dependent conversion.
pub open spec fn rendered_tok(t: LineToken, ct: ConvertType) -> Seq<LineToken> {
    match t {
        LineToken::BreakableEntry(be) => rendered_entry(be),
        _ => seq![convert_spec(t, ct)],
    }
}

/// Rendering is one contribution per token, in order: the flat rendering of
/// a sequence is the concatenation of each token's own contribution.
pub proof fn lemma_rendered_toks_per_token(s: Seq<LineToken>, ct: ConvertType)
    ensures
        rendered_toks(s, ct) == Seq::new(s.len(), |i: int| rendered_tok(s[i], ct)).flatten(),
    decreases s.len(),
{
    let m = Seq::new(s.len(), |i: int| rendered_tok(s[i], ct));
    if s.len() == 0 {
        assert(rendered_toks(s, ct) =~= m.flatten());
    } else {
        lemma_rendered_toks_per_token(s.drop_first(), ct);
        let m1 = Seq::new(
            s.drop_first().len(),
            |i: int| rendered_tok(s.drop_first()[i], ct),
        );
        assert(m.drop_first() =~= m1);
        assert(m.first() == rendered_tok(s[0], ct));
        assert(rendered_toks(s, ct) =~= m.flatten());
    }
}

/// Recursive nesting: a breakable entry is decided independently of its
/// surroundings. Wherever the entry stands, and whatever mode its
/// surroundings are rendered in, its contribution to the output is
/// `rendered_entry`, a function of the entry alone: a parent expanding does
/// not force a fitting child entry to expand, nor the other way round.
pub proof fn lemma_nested_entry_independent(
    prefix: Seq<LineToken>,
    be: BreakableEntry,
    suffix: Seq<LineToken>,
    ct: ConvertType,
)
    ensures
        rendered_toks(prefix + seq![LineToken::BreakableEntry(be)] + suffix, ct) == rendered_toks(
            prefix,
            ct,
        ) + rendered_entry(be) + rendered_toks(suffix, ct),
{
    let middle = seq![LineToken::BreakableEntry(be)];
    lemma_rendered_toks_concat(prefix + middle, suffix, ct);
    lemma_rendered_toks_concat(prefix, middle, ct);
    assert(middle.drop_first() =~= Seq::<LineToken>::empty());
    assert(rendered_toks(middle.drop_first(), ct) == Seq::<LineToken>::empty());
    assert(rendered_toks(middle, ct) =~= rendered_entry(be));
}

/// Collapsed rendering of a sequence whose collapsed text fits the width
/// budget introduces no line control: nested entries are at most as long as
/// the whole, so every one of them fits and collapses in turn.
pub proof fn lemma_collapsed_no_line_control(s: Seq<LineToken>)
    requires
        no_hard_markers(s),
        single_line_chars(s).len() <= MAX_LINE_LENGTH,
    ensures
        forall|i: int|
            0 <= i < rendered_toks(s, ConvertType::SingleLine).len() ==> !is_line_control(
                #[trigger] rendered_toks(s, ConvertType::SingleLine)[i],
            ),
    decreases seq_size(s),
{
    if s.len() != 0 {
        let first = match s[0] {
            LineToken::BreakableEntry(be) => rendered_entry(be),
            t => seq![convert_spec(t, ConvertType::SingleLine)],
        };
        let rest = rendered_toks(s.drop_first(), ConvertType::SingleLine);
        match s[0] {
            LineToken::BreakableEntry(be) => {
                let r = rendered_toks(be.tokens@, ConvertType::SingleLine);
                lemma_collapsed_no_line_control(be.tokens@);
                assert(single_line_chars(be.tokens@).len() <= MAX_LINE_LENGTH);
                assert(rendered_entry(be) == collapse_cleanup(r));
                if has_trailing_artifact(r) {
                    assert forall|i: int| 0 <= i < first.len() implies !is_line_control(
                        #[trigger] first[i],
                    ) by {
                        if i < r.len() - 4 {
                            assert(first[i] == r[i]);
                        } else {
                            assert(first[i] == r[r.len() - 1]);
                        }
                    }
                }
            },
            _ => {},
        }
        lemma_collapsed_no_line_control(s.drop_first());
        assert forall|i: int|
            0 <= i < rendered_toks(s, ConvertType::SingleLine).len() implies !is_line_control(
            #[trigger] rendered_toks(s, ConvertType::SingleLine)[i],
        ) by {
            if i < first.len() {
                assert(rendered_toks(s, ConvertType::SingleLine)[i] == first[i]);
            } else {
                assert(rendered_toks(s, ConvertType::SingleLine)[i] == rest[i - first.len()]);
            }
        }
    }
}

/// Fit threshold: a breakable entry whose collapsed length is within the
/// width budget renders collapsed — exactly one contribution per child, in
/// order, each rendered in collapsed mode — with no line control anywhere
/// in its output, and with the trailing separator, space and placeholder
/// stripped, so that its closing delimiter comes last.
pub proof fn lemma_fit_entry_collapses(be: BreakableEntry)
    requires
        single_line_chars(be.tokens@).len() <= MAX_LINE_LENGTH,
        no_hard_markers(be.tokens@),
    ensures
        rendered_entry(be) == collapse_cleanup(
            rendered_toks(be.tokens@, ConvertType::SingleLine),
        ),
        rendered_entry(be) == collapse_cleanup(
            Seq::new(
                be.tokens@.len(),
                |i: int| rendered_tok(be.tokens@[i], ConvertType::SingleLine),
            ).flatten(),
        ),
        forall|i: int|
            0 <= i < rendered_entry(be).len() ==> !is_line_control(
                #[trigger] rendered_entry(be)[i],
            ),
        has_trailing_artifact(rendered_toks(be.tokens@, ConvertType::SingleLine))
            ==> rendered_entry(be) == {
            let r = rendered_toks(be.tokens@, ConvertType::SingleLine);
            r.take(r.len() - 4) + seq![r.last()]
        },
{
    let r = rendered_toks(be.tokens@, ConvertType::SingleLine);
    lemma_collapsed_no_line_control(be.tokens@);
    lemma_rendered_toks_per_token(be.tokens@, ConvertType::SingleLine);
    if has_trailing_artifact(r) {
        assert forall|i: int| 0 <= i < rendered_entry(be).len() implies !is_line_control(
            #[trigger] rendered_entry(be)[i],
        ) by {
            if i < r.len() - 4 {
                assert(rendered_entry(be)[i] == r[i]);
            } else {
                assert(rendered_entry(be)[i] == r[r.len() - 1]);
            }
        }
    }
}

/// A soft line break among a sequence's own tokens becomes a real line
/// break when the sequence is rendered expanded.
pub proof fn lemma_expanded_newline(s: Seq<LineToken>, i: int)
    requires
        0 <= i < s.len(),
        s[i] is SoftNewline,
    ensures
        exists|j: int|
            0 <= j < rendered_toks(s, ConvertType::MultiLine).len() && #[trigger] rendered_toks(
                s,
                ConvertType::MultiLine,
            )[j] is HardNewline,
    decreases i,
{
    let first = match s[0] {
        LineToken::BreakableEntry(be) => rendered_entry(be),
        t => seq![convert_spec(t, ConvertType::MultiLine)],
    };
    let rest = rendered_toks(s.drop_first(), ConvertType::MultiLine);
    if i == 0 {
        assert(rendered_toks(s, ConvertType::MultiLine)[0] == first[0]);
        assert(rendered_toks(s, ConvertType::MultiLine)[0] is HardNewline);
    } else {
        lemma_expanded_newline(s.drop_first(), i - 1);
        let j = choose|j: int| 0 <= j < rest.len() && #[trigger] rest[j] is HardNewline;
        assert(rendered_toks(s, ConvertType::MultiLine)[first.len() + j] == rest[j]);
    }
}

/// Overflow threshold: a breakable entry whose collapsed length exceeds the
/// width budget renders expanded, and any soft line break among its
/// children comes out as a real line break in its output.
pub proof fn lemma_overflow_entry_breaks(be: BreakableEntry)
    requires
        single_line_chars(be.tokens@).len() > MAX_LINE_LENGTH,
        exists|i: int| 0 <= i < be.tokens@.len() && #[trigger] be.tokens@[i] is SoftNewline,
    ensures
        rendered_entry(be) == rendered_toks(be.tokens@, ConvertType::MultiLine),
        exists|j: int|
            0 <= j < rendered_entry(be).len() && #[trigger] rendered_entry(be)[j] is HardNewline,
{
    let i = choose|i: int| 0 <= i < be.tokens@.len() && #[trigger] be.tokens@[i] is SoftNewline;
    lemma_expanded_newline(be.tokens@, i);
}

} // verus!
