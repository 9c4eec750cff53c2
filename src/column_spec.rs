//! The row specification model, its parser and its serializer.

use vstd::prelude::*;

verus! {
use crate::error::{Error, ErrorView, Result};

/// The direction in which a column's value is padded.
#[derive(Debug, Clone, Copy, PartialEq, Eq, Structural)]
pub enum Alignment {
    Left,
    Right,
}

/// One unit of a row specification: a column placeholder or a run of literal text.
#[derive(Debug, Clone, PartialEq, Eq)]
pub enum ColumnSpec {
    Align(Alignment),
    Literal(String),
}

/// The mathematical value of a [`ColumnSpec`].
pub enum SegmentView {
    Align(Alignment),
    Literal(Seq<char>),
}

impl View for ColumnSpec {
    type V = SegmentView;

    open spec fn view(&self) -> SegmentView {
        match self {
            ColumnSpec::Align(a) => SegmentView::Align(*a),
            ColumnSpec::Literal(s) => SegmentView::Literal(s@),
        }
    }
}

/// The segments of a row specification, each seen through its view.
pub open spec fn segments_view(specs: Seq<ColumnSpec>) -> Seq<SegmentView> {
    specs.map_values(|c: ColumnSpec| c@)
}

/// A row specification is valid when no literal is empty and no two literals
/// are adjacent.
pub open spec fn well_formed(segs: Seq<SegmentView>) -> bool {
    &&& forall|i: int| 0 <= i < segs.len() ==> !(#[trigger] segs[i] is Literal && segs[i]->Literal_0.len() == 0)
    &&& forall|i: int| 0 < i < segs.len() ==> !(#[trigger] segs[i] is Literal && segs[i - 1] is Literal)
}

/// The number of column placeholders in a row specification.
pub open spec fn num_columns(segs: Seq<SegmentView>) -> nat
    decreases segs.len(),
{
    if segs.len() == 0 {
        0
    } else {
        num_columns(segs.drop_last()) + if segs.last() is Align { 1nat } else { 0nat }
    }
}

// ---------------------------------------------------------------- serializing

/// The template text of one literal character: braces are doubled.
pub open spec fn escape_char(c: char) -> Seq<char> {
    if c == '{' {
        seq!['{', '{']
    } else if c == '}' {
        seq!['}', '}']
    } else {
        seq![c]
    }
}

/// The template text of a literal run.
pub open spec fn escape(text: Seq<char>) -> Seq<char>
    decreases text.len(),
{
    if text.len() == 0 {
        Seq::empty()
    } else {
        escape(text.drop_last()) + escape_char(text.last())
    }
}

/// The placeholder text of an alignment: `{:<}` or `{:>}`.
pub open spec fn placeholder(a: Alignment) -> Seq<char> {
    match a {
        Alignment::Left => seq!['{', ':', '<', '}'],
        Alignment::Right => seq!['{', ':', '>', '}'],
    }
}

/// The template text of one segment.
pub open spec fn segment_text(seg: SegmentView) -> Seq<char> {
    match seg {
        SegmentView::Align(a) => placeholder(a),
        SegmentView::Literal(text) => escape(text),
    }
}

/// The template text of a row specification.
pub open spec fn serialize(segs: Seq<SegmentView>) -> Seq<char>
    decreases segs.len(),
{
    if segs.len() == 0 {
        Seq::empty()
    } else {
        serialize(segs.drop_last()) + segment_text(segs.last())
    }
}

// ---------------------------------------------------------------- parsing

/// A lexical unit of the template language: one literal character (after
/// unescaping) or one placeholder.
#[derive(Debug, Clone, Copy, PartialEq, Eq, Structural)]
pub enum Token {
    Char(char),
    Column(Alignment),
}

/// Puts `toks` in front of a successful tokenization; an error stays as it is.
pub open spec fn prepend(toks: Seq<Token>, r: std::result::Result<Seq<Token>, ErrorView>) -> std::result::Result<Seq<Token>, ErrorView> {
    match r {
        Ok(rest) => Ok(toks + rest),
        Err(e) => Err(e),
    }
}

/// The tokens of a template text, or the first error met reading it from the left.
pub open spec fn lex(s: Seq<char>) -> std::result::Result<Seq<Token>, ErrorView>
    decreases s.len(),
{
    if s.len() == 0 {
        Ok(Seq::empty())
    } else if s[0] == '{' {
        if s.len() == 1 {
            Err(ErrorView::UnclosedColumnSpec(Seq::empty()))
        } else if s[1] == '{' {
            prepend(seq![Token::Char('{')], lex(s.skip(2)))
        } else if s[1] == ':' {
            if s.len() == 2 {
                Err(ErrorView::UnclosedColumnSpec(seq![':']))
            } else if s[2] == '<' || s[2] == '>' {
                if s.len() == 3 {
                    Err(ErrorView::UnclosedColumnSpec(seq![':', s[2]]))
                } else if s[3] == '}' {
                    let a = if s[2] == '<' { Alignment::Left } else { Alignment::Right };
                    prepend(seq![Token::Column(a)], lex(s.skip(4)))
                } else {
                    Err(ErrorView::UnexpectedCharacter(s[3]))
                }
            } else {
                Err(ErrorView::BadColumnSpec(seq![':', s[2]]))
            }
        } else {
            Err(ErrorView::UnexpectedCharacter(s[1]))
        }
    } else if s[0] == '}' {
        if s.len() >= 2 && s[1] == '}' {
            prepend(seq![Token::Char('}')], lex(s.skip(2)))
        } else {
            Err(ErrorView::UnexpectedRightBrace)
        }
    } else {
        prepend(seq![Token::Char(s[0])], lex(s.skip(1)))
    }
}

/// The segments that a token sequence forms: each maximal run of characters
/// is one literal, each placeholder one alignment.
pub open spec fn group(toks: Seq<Token>) -> Seq<SegmentView>
    decreases toks.len(),
{
    if toks.len() == 0 {
        Seq::empty()
    } else {
        let g = group(toks.drop_last());
        match toks.last() {
            Token::Column(a) => g.push(SegmentView::Align(a)),
            Token::Char(c) => if g.len() > 0 && g.last() is Literal {
                g.update(g.len() - 1, SegmentView::Literal(g.last()->Literal_0.push(c)))
            } else {
                g.push(SegmentView::Literal(seq![c]))
            },
        }
    }
}

/// The number of placeholders among the tokens, counted as they are read.
pub open spec fn token_columns(toks: Seq<Token>) -> nat
    decreases toks.len(),
{
    if toks.len() == 0 {
        0
    } else {
        token_columns(toks.drop_last()) + if toks.last() is Column { 1nat } else { 0nat }
    }
}

/// What parsing a template text gives: its segments and its column count, or
/// the first error.
pub open spec fn parse(s: Seq<char>) -> std::result::Result<(Seq<SegmentView>, nat), ErrorView> {
    match lex(s) {
        Ok(toks) => Ok((group(toks), token_columns(toks))),
        Err(e) => Err(e),
    }
}

// ---------------------------------------------------------------- executable code

/// Relies on `String::push`: the character is appended at the end.
#[verifier::external_body]
fn push_char(s: &mut String, c: char)
    ensures
        final(s)@ == old(s)@.push(c),
{
    s.push(c);
}

/// The characters of `s`, in order.
fn chars_of(s: &str) -> (r: Vec<char>)
    ensures
        r@ == s@,
{
    broadcast use vstd::string::axiom_spec_iter;
    let mut r: Vec<char> = Vec::new();
    for c in it: s.chars()
        invariant
            it.seq() == s@,
            r@ == it.seq().take(it.index() as int),
    {
        r.push(c);
    }
    r
}

/// Appends the template text of a literal run to `out`, doubling each brace.
fn push_escaped(out: &mut String, literal: &String)
    ensures
        final(out)@ == old(out)@ + escape(literal@),
{
    let cs = chars_of(literal.as_str());
    let mut j: usize = 0;
    while j < cs.len()
        invariant
            j <= cs.len(),
            cs@ == literal@,
            out@ == old(out)@ + escape(cs@.take(j as int)),
        decreases cs.len() - j,
    {
        let c = cs[j];
        proof {
            reveal_strlit("{{");
            reveal_strlit("}}");
            assert(cs@.take(j + 1).drop_last() =~= cs@.take(j as int));
        }
        if c == '{' {
            out.append("{{");
        } else if c == '}' {
            out.append("}}");
        } else {
            push_char(out, c);
        }
        assert(out@ =~= old(out)@ + escape(cs@.take(j + 1)));
        j = j + 1;
    }
    assert(cs@.take(j as int) =~= literal@);
}

/// Turns a row specification into its template text: each placeholder as
/// `{:<}` or `{:>}`, each literal with its braces doubled.
pub fn row_spec_to_string(specs: &[ColumnSpec]) -> (r: String)
    ensures
        r@ == serialize(segments_view(specs@)),
{
    let mut result = String::new();
    let mut i: usize = 0;
    while i < specs.len()
        invariant
            i <= specs.len(),
            result@ == serialize(segments_view(specs@.take(i as int))),
        decreases specs.len() - i,
    {
        proof {
            reveal_strlit("{:<}");
            reveal_strlit("{:>}");
            assert(segments_view(specs@.take(i + 1)).drop_last() =~= segments_view(specs@.take(i as int)));
        }
        match &specs[i] {
            ColumnSpec::Align(Alignment::Left) => result.append("{:<}"),
            ColumnSpec::Align(Alignment::Right) => result.append("{:>}"),
            ColumnSpec::Literal(literal) => push_escaped(&mut result, literal),
        }
        assert(result@ =~= serialize(segments_view(specs@.take(i + 1))));
        i = i + 1;
    }
    assert(specs@.take(i as int) =~= specs@);
    result
}

// ---------------------------------------------------------------- parser steps

/// Putting tokens in front one batch after another is putting them in front at once.
proof fn lemma_prepend_push(toks: Seq<Token>, t: Token, r: std::result::Result<Seq<Token>, ErrorView>)
    ensures
        prepend(toks, prepend(seq![t], r)) == prepend(toks.push(t), r),
{
    if let Ok(rest) = r {
        assert(toks + (seq![t] + rest) =~= toks.push(t) + rest);
    }
}

/// A literal character read while `buf` is pending extends `buf`.
proof fn lemma_step_char(toks: Seq<Token>, v: Seq<ColumnSpec>, buf: Seq<char>, c: char)
    requires
        group(toks) == segments_view(v) + pending(buf),
        v.len() > 0 ==> v.last() is Align,
    ensures
        group(toks.push(Token::Char(c))) == segments_view(v) + pending(buf.push(c)),
        token_columns(toks.push(Token::Char(c))) == token_columns(toks),
{
    let t2 = toks.push(Token::Char(c));
    assert(t2.drop_last() =~= toks);
    let g = group(toks);
    if buf.len() > 0 {
        assert(g.last() == SegmentView::Literal(buf));
        assert(group(t2) =~= segments_view(v) + pending(buf.push(c)));
    } else {
        assert(g =~= segments_view(v));
        if g.len() > 0 {
            assert(g.last() == v.last()@);
        }
        assert(buf.push(c) =~= seq![c]);
        assert(group(t2) =~= segments_view(v) + pending(buf.push(c)));
    }
}

/// A placeholder read while `buf` is pending closes `buf` and adds the column.
proof fn lemma_step_column(toks: Seq<Token>, v: Seq<ColumnSpec>, buf: Seq<char>, a: Alignment)
    requires
        group(toks) == segments_view(v) + pending(buf),
    ensures
        group(toks.push(Token::Column(a))) == segments_view(v) + pending(buf) + seq![SegmentView::Align(a)],
        token_columns(toks.push(Token::Column(a))) == token_columns(toks) + 1,
{
    let t2 = toks.push(Token::Column(a));
    assert(t2.drop_last() =~= toks);
    assert(group(t2) =~= segments_view(v) + pending(buf) + seq![SegmentView::Align(a)]);
}

/// Grouping tokens always gives a valid row specification.
pub proof fn lemma_group_well_formed(toks: Seq<Token>)
    ensures
        well_formed(group(toks)),
    decreases toks.len(),
{
    if toks.len() > 0 {
        lemma_group_well_formed(toks.drop_last());
        let g = group(toks.drop_last());
        let g2 = group(toks);
        if let Token::Char(c) = toks.last() {
            if g.len() > 0 && g.last() is Literal {
                assert forall|i: int| 0 < i < g2.len() implies !(#[trigger] g2[i] is Literal && g2[i - 1] is Literal) by {
                    if i < g.len() - 1 {
                        assert(g[i] == g2[i] && g[i - 1] == g2[i - 1]);
                    } else {
                        assert(g[i - 1] == g2[i - 1]);
                    }
                }
                assert forall|i: int| 0 <= i < g2.len() implies !(#[trigger] g2[i] is Literal && g2[i]->Literal_0.len() == 0) by {
                    if i < g.len() - 1 {
                        assert(g[i] == g2[i]);
                    }
                }
            } else {
                assert forall|i: int| 0 < i < g2.len() implies !(#[trigger] g2[i] is Literal && g2[i - 1] is Literal) by {
                    if i < g.len() {
                        assert(g[i] == g2[i]);
                    }
                    assert(g[i - 1] == g2[i - 1]);
                }
                assert forall|i: int| 0 <= i < g2.len() implies !(#[trigger] g2[i] is Literal && g2[i]->Literal_0.len() == 0) by {
                    if i < g.len() {
                        assert(g[i] == g2[i]);
                    }
                }
            }
        } else {
            assert forall|i: int| 0 < i < g2.len() implies !(#[trigger] g2[i] is Literal && g2[i - 1] is Literal) by {
                if i < g.len() {
                    assert(g[i] == g2[i] && g[i - 1] == g2[i - 1]);
                }
            }
            assert forall|i: int| 0 <= i < g2.len() implies !(#[trigger] g2[i] is Literal && g2[i]->Literal_0.len() == 0) by {
                if i < g.len() {
                    assert(g[i] == g2[i]);
                }
            }
        }
    }
}

/// The placeholders counted while reading are the alignment segments of the result.
pub proof fn lemma_group_columns(toks: Seq<Token>)
    ensures
        token_columns(toks) == num_columns(group(toks)),
    decreases toks.len(),
{
    if toks.len() > 0 {
        lemma_group_columns(toks.drop_last());
        let g = group(toks.drop_last());
        if let Token::Char(c) = toks.last() {
            if g.len() > 0 && g.last() is Literal {
                let g2 = group(toks);
                assert(g2.drop_last() =~= g.drop_last());
            } else {
                assert(group(toks).drop_last() =~= g);
            }
        } else {
            assert(group(toks).drop_last() =~= g);
        }
    }
}

/// The segment list that a pending literal buffer adds once it is flushed.
pub open spec fn pending(buf: Seq<char>) -> Seq<SegmentView> {
    if buf.len() > 0 {
        seq![SegmentView::Literal(buf)]
    } else {
        Seq::empty()
    }
}

/// Reads the token that starts at position `i` of `cs`: gives it with the
/// position after it, or the error that the text there makes.
fn read_token(cs: &Vec<char>, i: usize) -> (r: Result<(Token, usize)>)
    requires
        i < cs.len(),
    ensures
        match r {
            Ok((t, j)) => i < j <= cs.len() && lex(cs@.skip(i as int)) == prepend(seq![t], lex(cs@.skip(j as int))),
            Err(e) => lex(cs@.skip(i as int)) == std::result::Result::<Seq<Token>, ErrorView>::Err(e@),
        },
{
    let ghost rest = cs@.skip(i as int);
    proof {
        reveal_strlit(":");
        assert(":"@ =~= seq![':']);
    }
    let c = cs[i];
    if c == '{' {
        if i + 1 >= cs.len() {
            return Err(Error::UnclosedColumnSpec(String::new()));
        }
        let c1 = cs[i + 1];
        if c1 == '{' {
            assert(rest.skip(2) =~= cs@.skip(i + 2));
            Ok((Token::Char('{'), i + 2))
        } else if c1 == ':' {
            if i + 2 >= cs.len() {
                return Err(Error::UnclosedColumnSpec(":".to_owned()));
            }
            let c2 = cs[i + 2];
            if c2 == '<' || c2 == '>' {
                if i + 3 >= cs.len() {
                    let mut seen = ":".to_owned();
                    push_char(&mut seen, c2);
                    assert(seen@ =~= seq![':', c2]);
                    return Err(Error::UnclosedColumnSpec(seen));
                }
                let c3 = cs[i + 3];
                if c3 != '}' {
                    return Err(Error::UnexpectedCharacter(c3));
                }
                let a = if c2 == '<' { Alignment::Left } else { Alignment::Right };
                assert(rest.skip(4) =~= cs@.skip(i + 4));
                Ok((Token::Column(a), i + 4))
            } else {
                let mut seen = ":".to_owned();
                push_char(&mut seen, c2);
                assert(seen@ =~= seq![':', c2]);
                Err(Error::BadColumnSpec(seen))
            }
        } else {
            Err(Error::UnexpectedCharacter(c1))
        }
    } else if c == '}' {
        if i + 1 < cs.len() && cs[i + 1] == '}' {
            assert(rest.skip(2) =~= cs@.skip(i + 2));
            Ok((Token::Char('}'), i + 2))
        } else {
            Err(Error::UnexpectedRightBrace)
        }
    } else {
        assert(rest.skip(1) =~= cs@.skip(i + 1));
        Ok((Token::Char(c), i + 1))
    }
}

/// Parses a row specification into its segments and its number of columns.
///
/// Plain characters form literal text, `{{` and `}}` stand for `{` and `}`,
/// and `{:<}` and `{:>}` are left- and right-aligned columns. Adjacent literal
/// text becomes one segment; the first malformed construct ends the parse with
/// an error.
pub fn parse_row_spec(spec: &str) -> (r: Result<(Vec<ColumnSpec>, usize)>)
    ensures
        match parse(spec@) {
            Ok((segs, n)) => r is Ok && segments_view(r->Ok_0.0@) == segs && r->Ok_0.1 == n,
            Err(e) => r is Err && r->Err_0@ == e,
        },
        r is Ok ==> well_formed(segments_view(r->Ok_0.0@)),
        r is Ok ==> r->Ok_0.1 == num_columns(segments_view(r->Ok_0.0@)),
{
    let cs = chars_of(spec);
    let mut vec: Vec<ColumnSpec> = Vec::new();
    let mut count: usize = 0;
    let mut buf = String::new();
    let ghost mut toks: Seq<Token> = Seq::empty();
    let mut i: usize = 0;
    proof {
        assert(cs@.skip(0) =~= cs@);
        if let Ok(all) = lex(cs@) {
            assert(toks + all =~= all);
        }
        assert(group(toks) =~= segments_view(vec@) + pending(buf@));
    }
    while i < cs.len()
        invariant
            i <= cs.len(),
            cs@ == spec@,
            lex(cs@) == prepend(toks, lex(cs@.skip(i as int))),
            group(toks) == segments_view(vec@) + pending(buf@),
            vec@.len() > 0 ==> vec@.last() is Align,
            count == token_columns(toks),
            count <= i,
        decreases cs.len() - i,
    {
        match read_token(&cs, i) {
            Err(e) => {
                return Err(e);
            },
            Ok((Token::Char(c), j)) => {
                proof {
                    lemma_prepend_push(toks, Token::Char(c), lex(cs@.skip(j as int)));
                    lemma_step_char(toks, vec@, buf@, c);
                    toks = toks.push(Token::Char(c));
                }
                push_char(&mut buf, c);
                i = j;
            },
            Ok((Token::Column(a), j)) => {
                proof {
                    lemma_prepend_push(toks, Token::Column(a), lex(cs@.skip(j as int)));
                    lemma_step_column(toks, vec@, buf@, a);
                    toks = toks.push(Token::Column(a));
                }
                let ghost old_vec = vec@;
                let ghost old_buf = buf@;
                if !buf.as_str().is_empty() {
                    vec.push(ColumnSpec::Literal(buf));
                    buf = String::new();
                }
                vec.push(ColumnSpec::Align(a));
                count = count + 1;
                assert(segments_view(vec@) + pending(buf@) =~= segments_view(old_vec) + pending(old_buf) + seq![SegmentView::Align(a)]);
                i = j;
            },
        }
    }
    proof {
        assert(cs@.skip(i as int) =~= Seq::<char>::empty());
        assert(toks + Seq::<Token>::empty() =~= toks);
        lemma_group_well_formed(toks);
        lemma_group_columns(toks);
    }
    if !buf.as_str().is_empty() {
        vec.push(ColumnSpec::Literal(buf));
    }
    assert(segments_view(vec@) =~= group(toks));
    Ok((vec, count))
}

} // verus!
