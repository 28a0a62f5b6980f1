use crate::text::{lemma_texts_push, texts};
use vstd::prelude::*;

verus! {

/// Whether `c` is white space: one of the characters with the Unicode property
/// `White_Space`.
pub open spec fn is_space(c: char) -> bool {
    let n = c as u32;
    ||| 0x09 <= n <= 0x0D
    ||| n == 0x20
    ||| n == 0x85
    ||| n == 0xA0
    ||| n == 0x1680
    ||| 0x2000 <= n <= 0x200A
    ||| n == 0x2028
    ||| n == 0x2029
    ||| n == 0x202F
    ||| n == 0x205F
    ||| n == 0x3000
}

/// Tells whether `c` is white space.
pub fn space(c: char) -> (white: bool)
    ensures
        white == is_space(c),
{
    let n = c as u32;
    (0x09 <= n && n <= 0x0D) || n == 0x20 || n == 0x85 || n == 0xA0 || n == 0x1680 || (0x2000 <= n
        && n <= 0x200A) || n == 0x2028 || n == 0x2029 || n == 0x202F || n == 0x205F || n == 0x3000
}

/// `s` without the white space at its front.
pub open spec fn trim_start(s: Seq<char>) -> Seq<char>
    decreases s.len(),
{
    if s.len() > 0 && is_space(s[0]) {
        trim_start(s.skip(1))
    } else {
        s
    }
}

/// `s` without the white space at its end.
pub open spec fn trim_end(s: Seq<char>) -> Seq<char>
    decreases s.len(),
{
    if s.len() > 0 && is_space(s.last()) {
        trim_end(s.drop_last())
    } else {
        s
    }
}

/// `s` without the white space at its front and at its end.
pub open spec fn trimmed(s: Seq<char>) -> Seq<char> {
    trim_end(trim_start(s))
}

/// The place of the first comma at or behind `from`, or the length of `s` where
/// there is none.
pub open spec fn next_comma(s: Seq<char>, from: int) -> int
    decreases s.len() - from,
{
    if 0 <= from < s.len() && s[from] != ',' {
        next_comma(s, from + 1)
    } else {
        from
    }
}

/// The addresses that the text behind `from` lists: the pieces between its commas,
/// each without the white space around it, except those of which nothing is left.
pub open spec fn seeds_from(s: Seq<char>, from: int) -> Seq<Seq<char>>
    decreases s.len() - from,
{
    if from < 0 || from > s.len() {
        Seq::empty()
    } else {
        let comma = next_comma(s, from);
        let piece = trimmed(s.subrange(from, comma));
        let rest = if comma >= s.len() {
            Seq::empty()
        } else {
            proof {
                lemma_next_comma(s, from);
            }
            seeds_from(s, comma + 1)
        };
        if piece.len() > 0 {
            seq![piece] + rest
        } else {
            rest
        }
    }
}

/// The addresses that a text lists, separated by commas.
pub open spec fn seeds(s: Seq<char>) -> Seq<Seq<char>> {
    seeds_from(s, 0)
}

/// The first comma at or behind a place lies at or behind it, within the text or at
/// its end.
pub proof fn lemma_next_comma(s: Seq<char>, from: int)
    requires
        0 <= from <= s.len(),
    ensures
        from <= next_comma(s, from) <= s.len(),
        next_comma(s, from) < s.len() ==> s[next_comma(s, from)] == ',',
    decreases s.len() - from,
{
    if from < s.len() && s[from] != ',' {
        lemma_next_comma(s, from + 1);
    }
}

/// Reads the addresses that a text lists, separated by commas. White space around
/// an address is dropped, and so is a piece that holds nothing else.
pub fn seed_urls(raw: &str) -> (list: Vec<String>)
    ensures
        texts(list@) == seeds(raw@),
{
    let len = raw.unicode_len();
    let mut list: Vec<String> = Vec::new();
    let mut pos: usize = 0;
    let mut done = false;
    assert(texts(list@) + seeds_from(raw@, 0) =~= seeds(raw@));
    while !done
        invariant
            len == raw@.len(),
            pos <= len,
            !done ==> texts(list@) + seeds_from(raw@, pos as int) == seeds(raw@),
            done ==> texts(list@) == seeds(raw@),
        decreases
                (len - pos) + if done {
                    0int
                } else {
                    1int
                },
    {
        let mut comma: usize = pos;
        while comma < len && raw.get_char(comma) != ','
            invariant
                len == raw@.len(),
                pos <= comma <= len,
                next_comma(raw@, comma as int) == next_comma(raw@, pos as int),
            decreases len - comma,
        {
            comma = comma + 1;
        }
        assert(next_comma(raw@, pos as int) == comma);
        let ghost piece = raw@.subrange(pos as int, comma as int);
        let mut start: usize = pos;
        while start < comma && space(raw.get_char(start))
            invariant
                len == raw@.len(),
                pos <= start <= comma <= len,
                trim_start(raw@.subrange(start as int, comma as int)) == trim_start(piece),
            decreases comma - start,
        {
            assert(raw@.subrange(start as int, comma as int).skip(1) =~= raw@.subrange(
                start + 1,
                comma as int,
            ));
            start = start + 1;
        }
        assert(trim_start(piece) == raw@.subrange(start as int, comma as int));
        let mut end: usize = comma;
        while end > start && space(raw.get_char(end - 1))
            invariant
                len == raw@.len(),
                start <= end <= comma <= len,
                trim_end(raw@.subrange(start as int, end as int)) == trimmed(piece),
            decreases end - start,
        {
            assert(raw@.subrange(start as int, end as int).drop_last() =~= raw@.subrange(
                start as int,
                end - 1,
            ));
            end = end - 1;
        }
        assert(trimmed(piece) == raw@.subrange(start as int, end as int));
        let ghost before = texts(list@);
        if end > start {
            let address = String::from_str(raw.substring_char(start, end));
            proof {
                lemma_texts_push(list@, address);
            }
            list.push(address);
        }
        proof {
            let found = if trimmed(piece).len() > 0 {
                seq![trimmed(piece)]
            } else {
                Seq::<Seq<char>>::empty()
            };
            assert(texts(list@) =~= before + found);
            let rest = if comma >= len {
                Seq::<Seq<char>>::empty()
            } else {
                seeds_from(raw@, comma + 1)
            };
            assert(seeds_from(raw@, pos as int) =~= found + rest);
            assert(before + (found + rest) =~= (before + found) + rest);
        }
        if comma >= len {
            done = true;
            assert(texts(list@) + Seq::<Seq<char>>::empty() =~= texts(list@));
        } else {
            pos = comma + 1;
        }
    }
    list
}

} // verus!
