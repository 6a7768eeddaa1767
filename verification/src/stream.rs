use vstd::prelude::*;
use crate::text::{
    byte_len, byte_length, lemma_byte_len_bounds, lemma_byte_len_split, to_chars,
};
use crate::tokenizer::{
    blank_end, digits_at, escape_at, indent_at, lexeme_at, name_end, number_end, string_at,
    token_at, Entry, EntryView, Token, TokenError, TokenStreamError, TokenView,
};

verus! {

pub open spec fn entry_view(e: Entry) -> EntryView {
    (e.0@, e.1, e.2)
}

pub open spec fn entries_view(v: Seq<Entry>) -> Seq<EntryView> {
    v.map_values(|e: Entry| entry_view(e))
}

pub open spec fn is_indent(e: EntryView) -> bool {
    e.0 is Indent
}

/// `ts` without the indents at its end.
pub open spec fn strip_trailing_indents(ts: Seq<EntryView>) -> Seq<EntryView>
    decreases ts.len(),
{
    if ts.len() > 0 && is_indent(ts.last()) {
        strip_trailing_indents(ts.drop_last())
    } else {
        ts
    }
}

/// `ts` with each run of adjacent indents replaced by the last of the run.
pub open spec fn collapse_indents(ts: Seq<EntryView>) -> Seq<EntryView>
    decreases ts.len(),
{
    if ts.len() == 0 {
        ts
    } else if ts.len() > 1 && is_indent(ts[0]) && is_indent(ts[1]) {
        collapse_indents(ts.drop_first())
    } else {
        seq![ts[0]] + collapse_indents(ts.drop_first())
    }
}

/// `ts` without the indents that carry no structure: those at the end, and
/// all but the last of each run.
pub open spec fn without_redundant(ts: Seq<EntryView>) -> Seq<EntryView> {
    collapse_indents(strip_trailing_indents(ts))
}

proof fn lemma_blank_end_bounds(s: Seq<char>, i: int, start_of_file: bool, in_comment: bool)
    requires
        0 <= i <= s.len(),
    ensures
        i <= blank_end(s, i, start_of_file, in_comment) <= s.len(),
    decreases s.len() - i,
{
    if i < s.len() {
        lemma_blank_end_bounds(s, i + 1, start_of_file, true);
        lemma_blank_end_bounds(s, i + 1, start_of_file, false);
    }
}

proof fn lemma_indent_bounds(s: Seq<char>, i: int, count: int)
    requires
        0 <= i <= s.len(),
    ensures
        indent_at(s, i, count) matches Ok((_, end)) ==> i <= end < s.len(),
    decreases s.len() - i,
{
    if i < s.len() && s[i] == '\t' && count < 255 {
        lemma_indent_bounds(s, i + 1, count + 1);
    }
}

proof fn lemma_digits_bounds(s: Seq<char>, i: int, count: nat, radix: u32, acc: int)
    requires
        0 <= i <= s.len(),
    ensures
        digits_at(s, i, count, radix, acc).is_some() ==> i + count <= s.len(),
    decreases count,
{
    if count > 0 && i < s.len() {
        match crate::text::digit_of(s[i], radix) {
            Some(d) => lemma_digits_bounds(s, i + 1, (count - 1) as nat, radix, acc * radix + d),
            None => {},
        }
    }
}

proof fn lemma_escape_bounds(s: Seq<char>, i: int)
    requires
        0 <= i <= s.len(),
    ensures
        escape_at(s, i) matches Ok((_, extra)) ==> i + 1 + extra <= s.len(),
{
    if i < s.len() {
        lemma_digits_bounds(s, i, 3, 8, 0);
        lemma_digits_bounds(s, i + 1, 2, 16, 0);
        lemma_digits_bounds(s, i + 1, 4, 16, 0);
        lemma_digits_bounds(s, i + 1, 8, 16, 0);
    }
}

proof fn lemma_string_bounds(s: Seq<char>, i: int, acc: Seq<char>)
    requires
        0 <= i <= s.len(),
    ensures
        string_at(s, i, acc) matches Ok((_, end)) ==> i < end <= s.len(),
    decreases s.len() - i,
{
    if i < s.len() {
        if s[i] == '"' {
        } else if s[i] == '\\' {
            lemma_escape_bounds(s, i + 1);
            match escape_at(s, i + 1) {
                Ok((c, extra)) => lemma_string_bounds(s, i + 2 + extra, acc.push(c)),
                Err(_) => {},
            }
        } else {
            lemma_string_bounds(s, i + 1, acc.push(s[i]));
        }
    }
}

proof fn lemma_number_bounds(s: Seq<char>, i: int, dot_seen: bool, after_dot: bool)
    requires
        0 <= i <= s.len(),
    ensures
        i - (if after_dot {
            1int
        } else {
            0int
        }) <= number_end(s, i, dot_seen, after_dot) <= s.len(),
    decreases s.len() - i,
{
    if i < s.len() {
        lemma_number_bounds(s, i + 1, dot_seen, false);
        lemma_number_bounds(s, i + 1, true, true);
    }
}

proof fn lemma_name_bounds(s: Seq<char>, i: int)
    requires
        0 <= i <= s.len(),
    ensures
        i <= name_end(s, i) <= s.len(),
    decreases s.len() - i,
{
    if i < s.len() {
        lemma_name_bounds(s, i + 1);
    }
}

/// A token that was read ends behind the index from which it was read, and
/// within the text.
pub proof fn lemma_token_advances(s: Seq<char>, i: int, start_of_file: bool)
    requires
        0 <= i,
    ensures
        token_at(s, i, start_of_file) matches Ok((_, end)) ==> i < end <= s.len(),
{
    if i <= s.len() {
        lemma_blank_end_bounds(s, i, start_of_file, false);
        let p = blank_end(s, i, start_of_file, false);
        if p < s.len() {
            lemma_indent_bounds(s, p + 1, 0);
            lemma_indent_bounds(s, p + 1, 1);
            lemma_string_bounds(s, p + 1, Seq::<char>::empty());
            lemma_number_bounds(s, p + 1, false, false);
            lemma_name_bounds(s, p + 1);
        }
    }
}

/// The entries of the text `s` from index `i` on, behind those of `acc`:
/// each token with its line, counted from one and raised by every indent,
/// and its column. A column is a number of bytes of the text in UTF-8: an
/// indent stands at column zero of the line it opens and sets the column to
/// its level, and every other token stands at the column and adds to it the
/// bytes that were read for it.
pub open spec fn tokenize(
    s: Seq<char>,
    i: int,
    start_of_file: bool,
    line: int,
    column: int,
    acc: Seq<EntryView>,
) -> Result<Seq<EntryView>, TokenStreamError>
    decreases s.len() - i,
{
    if i < 0 {
        Ok(without_redundant(acc))
    } else {
        match token_at(s, i, start_of_file) {
            Ok((token, end)) => {
                proof {
                    lemma_token_advances(s, i, start_of_file);
                }
                match token {
                    TokenView::Indent(n) => tokenize(
                        s,
                        end,
                        false,
                        line + 1,
                        n as int,
                        acc.push((token, (line + 1) as u32, 0u32)),
                    ),
                    _ => tokenize(
                        s,
                        end,
                        false,
                        line,
                        column + byte_len(s.subrange(i, end)),
                        acc.push((token, line as u32, column as u32)),
                    ),
                }
            },
            Err(TokenError::Empty) => Ok(without_redundant(acc)),
            Err(e) => Err(TokenStreamError::TokenError(e)),
        }
    }
}

/// The entries of a whole source text.
pub open spec fn token_entries(s: Seq<char>) -> Result<Seq<EntryView>, TokenStreamError> {
    tokenize(s, 0, true, 1, 0, Seq::<EntryView>::empty())
}

/// The tokens of a source text, with a cursor that walks them.
pub struct TokenStream {
    tokens: Vec<Entry>,
    current_index: usize,
}

fn is_indent_entry(e: &Entry) -> (r: bool)
    ensures
        r == is_indent(entry_view(*e)),
{
    proof {
        reveal(Token::model);
    }
    matches!(e.0, Token::Indent(_))
}

impl TokenStream {
    #[verifier::type_invariant]
    spec fn inv(&self) -> bool {
        self.current_index <= self.tokens@.len()
    }

    /// The entries of the stream, in order.
    pub closed spec fn entries(&self) -> Seq<EntryView> {
        entries_view(self.tokens@)
    }

    /// How many entries the cursor has passed.
    pub closed spec fn cursor(&self) -> int {
        self.current_index as int
    }

    /// How many entries the cursor has passed: never more than there are.
    pub fn index(&self) -> (r: usize)
        ensures
            r == self.cursor(),
            r <= self.entries().len(),
    {
        proof {
            use_type_invariant(self);
        }
        self.current_index
    }

    /// Reads the tokens of `source`. Each token comes with its line, counted
    /// from one, and its column, counted in bytes of the text in UTF-8. The
    /// text has fewer bytes than a column can count.
    pub fn parse(source: &str) -> (r: Result<TokenStream, TokenStreamError>)
        requires
            byte_len(source@) < u32::MAX,
        ensures
            match r {
                Ok(stream) => token_entries(source@) == Ok::<Seq<EntryView>, TokenStreamError>(
                    stream.entries(),
                ) && stream.cursor() == 0,
                Err(e) => token_entries(source@) == Err::<Seq<EntryView>, TokenStreamError>(e),
            },
    {
        let chars = to_chars(source);
        proof {
            lemma_byte_len_bounds(chars@);
            assert(chars@.subrange(0, 0) =~= Seq::<char>::empty());
        }
        let mut tokens: Vec<Entry> = Vec::new();
        let mut pos: usize = 0;
        let mut line: u32 = 1;
        let mut column: u32 = 0;
        let mut start = true;
        assert(entries_view(tokens@) =~= Seq::<EntryView>::empty());
        loop
            invariant
                chars@ == source@,
                byte_len(chars@) < u32::MAX,
                chars@.len() < u32::MAX,
                pos <= chars@.len(),
                1 <= line <= pos + 1,
                column <= byte_len(chars@.subrange(0, pos as int)),
                token_entries(source@) == tokenize(
                    chars@,
                    pos as int,
                    start,
                    line as int,
                    column as int,
                    entries_view(tokens@),
                ),
            decreases chars@.len() - pos,
        {
            match Token::scan(chars.as_slice(), pos, start) {
                Ok((token, end)) => {
                    proof {
                        reveal(Token::model);
                    }
                    let ghost before = entries_view(tokens@);
                    proof {
                        lemma_byte_len_split(chars@, 0, pos as int, end as int);
                        lemma_byte_len_split(chars@, 0, end as int, chars@.len() as int);
                        assert(chars@.subrange(0, chars@.len() as int) =~= chars@);
                        lemma_byte_len_bounds(chars@.subrange(pos as int, end as int));
                    }
                    let at: u32;
                    if let Token::Indent(level) = token {
                        line += 1;
                        column = level as u32;
                        at = 0;
                    } else {
                        at = column;
                        column += byte_length(chars.as_slice(), pos, end) as u32;
                    }
                    tokens.push((token, line, at));
                    assert(entries_view(tokens@) =~= before.push((token@, line, at)));
                    pos = end;
                    start = false;
                },
                Err(e) => {
                    if let TokenError::Empty = e {
                        Self::remove_redundant(&mut tokens);
                        return Ok(TokenStream { tokens, current_index: 0 });
                    } else {
                        return Err(TokenStreamError::TokenError(e));
                    }
                },
            }
        }
    }

    /// The next token; the cursor moves behind it.
    pub fn next(&mut self) -> (r: Option<Token>)
        ensures
            final(self).entries() == old(self).entries(),
            match r {
                Some(token) => old(self).cursor() < old(self).entries().len() && token@ == old(
                    self,
                ).entries()[old(self).cursor()].0 && final(self).cursor() == old(self).cursor()
                    + 1,
                None => old(self).cursor() >= old(self).entries().len() && final(self).cursor()
                    == old(self).cursor(),
            },
    {
        proof {
            use_type_invariant(&*self);
        }
        if self.current_index < self.tokens.len() {
            self.current_index += 1;
            Some(self.tokens[self.current_index - 1].0.dup())
        } else {
            None
        }
    }

    /// Moves the cursor back by one token. Says whether it moved: at the
    /// start it stays.
    pub fn prev(&mut self) -> (moved: bool)
        ensures
            final(self).entries() == old(self).entries(),
            moved == (old(self).cursor() > 0),
            final(self).cursor() == (if moved {
                old(self).cursor() - 1
            } else {
                old(self).cursor()
            }),
    {
        proof {
            use_type_invariant(&*self);
        }
        if self.current_index > 0 {
            self.current_index -= 1;
            true
        } else {
            false
        }
    }

    /// The line and column of the token that was read last.
    pub fn position(&self) -> (r: (u32, u32))
        requires
            self.cursor() > 0,
        ensures
            r.0 == self.entries()[self.cursor() - 1].1,
            r.1 == self.entries()[self.cursor() - 1].2,
    {
        proof {
            use_type_invariant(self);
        }
        let e = &self.tokens[self.current_index - 1];
        (e.1, e.2)
    }

    /// The entries of the stream.
    pub fn as_slice(&self) -> (r: &[Entry])
        ensures
            entries_view(r@) == self.entries(),
    {
        self.tokens.as_slice()
    }

    /// Removes the indents that carry no structure: those at the end, and
    /// all but the last of each run.
    pub fn remove_redundant(tokens: &mut Vec<Entry>)
        ensures
            entries_view(final(tokens)@) == without_redundant(entries_view(old(tokens)@)),
    {
        let mut n: usize = tokens.len();
        while n > 0 && is_indent_entry(&tokens[n - 1])
            invariant
                n == tokens@.len(),
                strip_trailing_indents(entries_view(old(tokens)@)) == strip_trailing_indents(
                    entries_view(tokens@),
                ),
            decreases n,
        {
            let ghost before = entries_view(tokens@);
            tokens.pop();
            n -= 1;
            assert(entries_view(tokens@) =~= before.drop_last());
        }
        let ghost ts = entries_view(tokens@);
        let mut i: usize = tokens.len();
        let mut next_is_indent = false;
        assert(ts.subrange(0, i as int) =~= ts);
        assert(ts.subrange(i as int, ts.len() as int) =~= Seq::<EntryView>::empty());
        assert(ts + Seq::<EntryView>::empty() =~= ts);
        while i > 0
            invariant
                ts == strip_trailing_indents(entries_view(old(tokens)@)),
                i <= ts.len(),
                entries_view(tokens@) == ts.subrange(0, i as int) + collapse_indents(
                    ts.subrange(i as int, ts.len() as int),
                ),
                next_is_indent == (i < ts.len() && is_indent(ts[i as int])),
            decreases i,
        {
            i -= 1;
            let ghost before = entries_view(tokens@);
            let ghost rest = ts.subrange(i as int, ts.len() as int);
            let ghost tail = collapse_indents(ts.subrange(i + 1, ts.len() as int));
            assert(rest.drop_first() =~= ts.subrange(i + 1, ts.len() as int));
            assert(before == ts.subrange(0, i + 1) + tail);
            assert(before.len() == i + 1 + tail.len());
            assert(before[i as int] == ts[i as int]);
            if is_indent_entry(&tokens[i]) {
                if next_is_indent {
                    tokens.remove(i);
                    assert(entries_view(tokens@) =~= before.remove(i as int));
                    assert(before.remove(i as int) =~= ts.subrange(0, i as int) + tail);
                } else {
                    assert(before =~= ts.subrange(0, i as int) + (seq![ts[i as int]] + tail));
                }
                next_is_indent = true;
            } else {
                assert(before =~= ts.subrange(0, i as int) + (seq![ts[i as int]] + tail));
                next_is_indent = false;
            }
        }
        assert(ts.subrange(0, 0) + collapse_indents(ts.subrange(0, ts.len() as int))
            =~= collapse_indents(ts)) by {
            assert(ts.subrange(0, ts.len() as int) =~= ts);
        }
    }
}

} // verus!
