//! Laws relating the parser and the serializer.

use vstd::prelude::*;
use crate::error::ErrorView;
use crate::column_spec::{
    escape, escape_char, group, lex, num_columns, parse, placeholder, prepend, segment_text,
    serialize, token_columns, well_formed, Alignment, SegmentView, Token,
};

verus! {

/// The tokens of a literal run: one per character.
pub open spec fn char_tokens(text: Seq<char>) -> Seq<Token>
    decreases text.len(),
{
    if text.len() == 0 {
        Seq::empty()
    } else {
        char_tokens(text.drop_last()).push(Token::Char(text.last()))
    }
}

/// The tokens that one segment's template text reads as.
pub open spec fn segment_tokens(seg: SegmentView) -> Seq<Token> {
    match seg {
        SegmentView::Align(a) => seq![Token::Column(a)],
        SegmentView::Literal(text) => char_tokens(text),
    }
}

/// The tokens that a row specification's template text reads as.
pub open spec fn tokens_of(segs: Seq<SegmentView>) -> Seq<Token>
    decreases segs.len(),
{
    if segs.len() == 0 {
        Seq::empty()
    } else {
        tokens_of(segs.drop_last()) + segment_tokens(segs.last())
    }
}

/// The tokens of a literal run with one more character end with that character.
proof fn lemma_char_tokens_push(init: Seq<char>, c: char)
    ensures
        char_tokens(init.push(c)) == char_tokens(init) + seq![Token::Char(c)],
{
    assert(init.push(c).drop_last() =~= init);
    assert(char_tokens(init).push(Token::Char(c)) =~= char_tokens(init) + seq![Token::Char(c)]);
}

/// Putting two batches of tokens in front, one after the other, is putting
/// their concatenation in front.
pub proof fn lemma_prepend_concat(a: Seq<Token>, b: Seq<Token>, r: std::result::Result<Seq<Token>, ErrorView>)
    ensures
        prepend(a, prepend(b, r)) == prepend(a + b, r),
{
    if let Ok(rest) = r {
        assert(a + (b + rest) =~= (a + b) + rest);
    }
}

/// The escaped text of one character reads back as that character, whatever follows.
proof fn lemma_lex_escape_char(c: char, rest: Seq<char>)
    ensures
        lex(escape_char(c) + rest) == prepend(seq![Token::Char(c)], lex(rest)),
{
    let x = escape_char(c) + rest;
    if c == '{' || c == '}' {
        assert(x.skip(2) =~= rest);
    } else {
        assert(x.skip(1) =~= rest);
    }
}

/// An escaped literal run reads back as its characters, whatever follows.
pub proof fn lemma_lex_escape(text: Seq<char>, rest: Seq<char>)
    ensures
        lex(escape(text) + rest) == prepend(char_tokens(text), lex(rest)),
    decreases text.len(),
{
    if text.len() == 0 {
        assert(escape(text) + rest =~= rest);
        if let Ok(t) = lex(rest) {
            assert(char_tokens(text) + t =~= t);
        }
    } else {
        let init = text.drop_last();
        let c = text.last();
        lemma_lex_escape(init, escape_char(c) + rest);
        lemma_lex_escape_push(init, c, rest);
        assert(init.push(c) =~= text);
    }
}

/// The step of [`lemma_lex_escape`]: one more character at the end of the run.
proof fn lemma_lex_escape_push(init: Seq<char>, c: char, rest: Seq<char>)
    requires
        lex(escape(init) + (escape_char(c) + rest)) == prepend(char_tokens(init), lex(escape_char(c) + rest)),
    ensures
        lex(escape(init.push(c)) + rest) == prepend(char_tokens(init.push(c)), lex(rest)),
{
    assert(init.push(c).drop_last() =~= init);
    assert(escape(init.push(c)) + rest =~= escape(init) + (escape_char(c) + rest));
    lemma_lex_escape_char(c, rest);
    lemma_prepend_concat(char_tokens(init), seq![Token::Char(c)], lex(rest));
    lemma_char_tokens_push(init, c);
}

/// One segment's template text reads back as that segment's tokens, whatever follows.
pub proof fn lemma_lex_segment(seg: SegmentView, rest: Seq<char>)
    ensures
        lex(segment_text(seg) + rest) == prepend(segment_tokens(seg), lex(rest)),
{
    match seg {
        SegmentView::Align(a) => {
            let x = placeholder(a) + rest;
            assert(x.skip(4) =~= rest);
        },
        SegmentView::Literal(text) => {
            lemma_lex_escape(text, rest);
        },
    }
}

/// A row specification's template text reads back as its tokens, whatever follows.
pub proof fn lemma_lex_serialize(segs: Seq<SegmentView>, rest: Seq<char>)
    ensures
        lex(serialize(segs) + rest) == prepend(tokens_of(segs), lex(rest)),
    decreases segs.len(),
{
    if segs.len() == 0 {
        assert(serialize(segs) + rest =~= rest);
        if let Ok(t) = lex(rest) {
            assert(tokens_of(segs) + t =~= t);
        }
    } else {
        let init = segs.drop_last();
        let last = segs.last();
        assert(serialize(segs) + rest =~= serialize(init) + (segment_text(last) + rest));
        lemma_lex_serialize(init, segment_text(last) + rest);
        lemma_lex_segment(last, rest);
        lemma_prepend_concat(tokens_of(init), segment_tokens(last), lex(rest));
    }
}

/// Characters read after anything but a literal form one new literal.
pub proof fn lemma_group_chars(toks: Seq<Token>, text: Seq<char>)
    requires
        text.len() > 0,
        group(toks).len() == 0 || !(group(toks).last() is Literal),
    ensures
        group(toks + char_tokens(text)) == group(toks).push(SegmentView::Literal(text)),
        token_columns(toks + char_tokens(text)) == token_columns(toks),
    decreases text.len(),
{
    let init = text.drop_last();
    let c = text.last();
    if init.len() > 0 {
        lemma_group_chars(toks, init);
    }
    lemma_group_chars_push(toks, init, c);
    assert(init.push(c) =~= text);
}

/// The step of [`lemma_group_chars`]: one more character at the end of the run.
proof fn lemma_group_chars_push(toks: Seq<Token>, init: Seq<char>, c: char)
    requires
        group(toks).len() == 0 || !(group(toks).last() is Literal),
        init.len() > 0 ==> group(toks + char_tokens(init)) == group(toks).push(SegmentView::Literal(init)),
        init.len() > 0 ==> token_columns(toks + char_tokens(init)) == token_columns(toks),
    ensures
        group(toks + char_tokens(init.push(c))) == group(toks).push(SegmentView::Literal(init.push(c))),
        token_columns(toks + char_tokens(init.push(c))) == token_columns(toks),
{
    let all = toks + char_tokens(init.push(c));
    lemma_char_tokens_push(init, c);
    assert(all =~= (toks + char_tokens(init)).push(Token::Char(c)));
    assert(all.drop_last() =~= toks + char_tokens(init));
    if init.len() == 0 {
        assert(toks + char_tokens(init) =~= toks);
        assert(init.push(c) =~= seq![c]);
    } else {
        assert(group(all) =~= group(toks).push(SegmentView::Literal(init.push(c))));
    }
}

/// A valid row specification is what its own tokens group into, and its
/// placeholders are counted as its alignment segments.
pub proof fn lemma_group_tokens(segs: Seq<SegmentView>)
    requires
        well_formed(segs),
    ensures
        group(tokens_of(segs)) == segs,
        token_columns(tokens_of(segs)) == num_columns(segs),
    decreases segs.len(),
{
    if segs.len() > 0 {
        let init = segs.drop_last();
        assert forall|i: int| 0 <= i < init.len() implies !(#[trigger] init[i] is Literal && init[i]->Literal_0.len() == 0) by {
            assert(init[i] == segs[i]);
        }
        assert forall|i: int| 0 < i < init.len() implies !(#[trigger] init[i] is Literal && init[i - 1] is Literal) by {
            assert(init[i] == segs[i] && init[i - 1] == segs[i - 1]);
        }
        lemma_group_tokens(init);
        let t = tokens_of(init);
        match segs.last() {
            SegmentView::Align(a) => {
                assert((t + seq![Token::Column(a)]).drop_last() =~= t);
                assert(init.push(SegmentView::Align(a)) =~= segs);
            },
            SegmentView::Literal(text) => {
                assert(segs[segs.len() - 1] is Literal);
                lemma_group_chars(t, text);
                assert(init.push(SegmentView::Literal(text)) =~= segs);
            },
        }
    }
}

/// Serializing a valid row specification and parsing the text gives back the
/// same specification, with its number of alignment segments as the column count.
pub proof fn lemma_round_trip(segs: Seq<SegmentView>)
    requires
        well_formed(segs),
    ensures
        parse(serialize(segs)) == std::result::Result::<(Seq<SegmentView>, nat), ErrorView>::Ok((segs, num_columns(segs))),
{
    lemma_lex_serialize(segs, Seq::empty());
    assert(serialize(segs) + Seq::<char>::empty() =~= serialize(segs));
    assert(tokens_of(segs) + Seq::<Token>::empty() =~= tokens_of(segs));
    lemma_group_tokens(segs);
}

/// A non-empty literal, whatever braces it holds, serializes to text that
/// parses back to that one literal and no column.
pub proof fn lemma_literal_round_trip(text: Seq<char>)
    requires
        text.len() > 0,
    ensures
        parse(serialize(seq![SegmentView::Literal(text)])) == std::result::Result::<(Seq<SegmentView>, nat), ErrorView>::Ok((seq![SegmentView::Literal(text)], 0)),
{
    let segs = seq![SegmentView::Literal(text)];
    assert(segs.drop_last() =~= Seq::<SegmentView>::empty());
    assert(num_columns(Seq::<SegmentView>::empty()) == 0);
    assert(num_columns(segs) == 0);
    lemma_round_trip(segs);
}

/// Whatever text parses, the result is a valid row specification and its
/// column count is the number of its alignment segments.
pub proof fn lemma_column_count(s: Seq<char>)
    ensures
        parse(s) is Ok ==> well_formed(parse(s)->Ok_0.0),
        parse(s) is Ok ==> parse(s)->Ok_0.1 == num_columns(parse(s)->Ok_0.0),
{
    if let Ok(toks) = lex(s) {
        crate::column_spec::lemma_group_well_formed(toks);
        crate::column_spec::lemma_group_columns(toks);
    }
}

} // verus!
