//! The slice expression: the text `BEGIN:END` that a slice is read from, and
//! the text that a slice is shown as.
use crate::decimal::{
    append_integer, decimal, integer_of, lemma_decimal_chars, lemma_integer_of_decimal,
    parse_integer,
};
use crate::scan::{lemma_position_first, lemma_position_is, position};
use crate::slice::Slice;
use vstd::prelude::*;
use vstd::slice::slice_subrange;

verus! {

/// The characters of `text`.
fn chars_of(text: &str) -> (chars: Vec<char>)
    ensures
        chars@ == text@,
{
    let mut chars: Vec<char> = Vec::new();
    for c in it: text.chars()
        invariant
            it.seq() == text@,
            chars@ == it.seq().take(it.index() as int),
    {
        chars.push(c);
    }
    chars
}

/// Index of the first `c` in `text` at or after `from`; the length of `text`
/// where there is none.
fn find_char(text: &[char], from: usize, c: char) -> (at: usize)
    requires
        from <= text@.len(),
    ensures
        at == from + position(text@.skip(from as int), c),
        from <= at <= text@.len(),
{
    let mut at: usize = from;
    while at < text.len() && text[at] != c
        invariant
            from <= at <= text@.len(),
            forall|i: int| from <= i < at ==> text@[i] != c,
        decreases text@.len() - at,
    {
        at = at + 1;
    }
    proof {
        lemma_position_is(text@.skip(from as int), c, at - from);
    }
    at
}

impl Slice {
    /// What the expression `text` is read as.
    ///
    /// An expression is a begin part, one colon and an end part. A part is
    /// empty or an `isize` in decimal notation; not both parts are empty. An
    /// empty begin part stands for `0`, an empty end part for no end.
    pub open spec fn parse(text: Seq<char>) -> Result<Slice, &'static str> {
        if !text.contains(':') {
            Err("Invalid slice")
        } else {
            let at = position(text, ':') as int;
            let begin_part = text.take(at);
            let end_part = text.skip(at + 1);
            if end_part.contains(':') {
                Err("Invalid slice")
            } else if begin_part.len() == 0 && end_part.len() == 0 {
                Err("Slice cannot be empty")
            } else if begin_part.len() > 0 && integer_of(begin_part) is None {
                Err("Invalid slice starting point")
            } else if end_part.len() > 0 && integer_of(end_part) is None {
                Err("Invalid slice ending point")
            } else {
                Ok(
                    Slice {
                        begin: if begin_part.len() == 0 {
                            0
                        } else {
                            integer_of(begin_part)->0
                        },
                        end: if end_part.len() == 0 {
                            None
                        } else {
                            integer_of(end_part)
                        },
                    },
                )
            }
        }
    }

    /// The expression of the slice: `begin:end`, or `begin:` where it has no
    /// end.
    pub open spec fn expression(self) -> Seq<char> {
        let end_part = match self.end {
            Some(end) => decimal(end as int),
            None => Seq::empty(),
        };
        decimal(self.begin as int) + seq![':'] + end_part
    }

    /// What the slice is shown as: its expression in square brackets.
    pub open spec fn display(self) -> Seq<char> {
        seq!['['] + self.expression() + seq![']']
    }

    /// The expression of a slice is read as that slice.
    pub proof fn lemma_parse_expression(self)
        ensures
            Slice::parse(self.expression()) == Ok::<Slice, &'static str>(self),
    {
        let begin_part = decimal(self.begin as int);
        let end_part = match self.end {
            Some(end) => decimal(end as int),
            None => Seq::empty(),
        };
        let text = self.expression();
        let at = begin_part.len() as int;
        lemma_decimal_chars(self.begin as int);
        lemma_integer_of_decimal(self.begin);
        assert(forall|i: int| 0 <= i < at ==> text[i] == begin_part[i]);
        lemma_position_is(text, ':', at);
        assert(text.take(at) =~= begin_part);
        assert(text.skip(at + 1) =~= end_part);
        if let Some(end) = self.end {
            lemma_decimal_chars(end as int);
            lemma_integer_of_decimal(end);
        }
        assert(!end_part.contains(':'));
    }

    /// Reads a slice from the expression `slice_str`.
    pub fn from_string(slice_str: &str) -> (parsed: Result<Slice, &'static str>)
        ensures
            parsed == Slice::parse(slice_str@),
    {
        let chars = chars_of(slice_str);
        let text = chars.as_slice();
        let n = text.len();
        let at = find_char(text, 0, ':');
        proof {
            assert(text@.skip(0) =~= text@);
            lemma_position_first(text@, ':');
        }
        if at == n {
            return Err("Invalid slice");
        }
        let second = find_char(text, at + 1, ':');
        proof {
            lemma_position_first(text@.skip(at + 1), ':');
        }
        if second < n {
            return Err("Invalid slice");
        }
        if at == 0 && at + 1 == n {
            return Err("Slice cannot be empty");
        }
        let mut slice = Slice { begin: 0, end: None };
        if at > 0 {
            match parse_integer(slice_subrange(text, 0, at)) {
                Some(begin) => {
                    slice.begin = begin;
                },
                None => {
                    return Err("Invalid slice starting point");
                },
            }
        }
        if at + 1 < n {
            match parse_integer(slice_subrange(text, at + 1, n)) {
                Some(end) => {
                    slice.end = Some(end);
                },
                None => {
                    return Err("Invalid slice ending point");
                },
            }
        }
        Ok(slice)
    }

    /// Shows the slice as `[begin:end]`, or as `[begin:]` where it has no end.
    pub fn to_string(&self) -> (text: String)
        ensures
            text@ == self.display(),
    {
        proof {
            reveal_strlit("[");
            reveal_strlit(":");
            reveal_strlit("]");
        }
        let mut text = String::new();
        text.append("[");
        append_integer(&mut text, self.begin);
        text.append(":");
        if let Some(end) = self.end {
            append_integer(&mut text, end);
        }
        text.append("]");
        text
    }
}

} // verus!
