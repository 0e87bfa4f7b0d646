//! Work on text that the input reading and the report share: joining,
//! padding to a column, and finding the `": "` that marks a setting.

use vstd::prelude::*;
use vstd::utf8::encode_utf8;

verus! {

/// The texts that a sequence of strings holds.
pub open spec fn texts(strings: Seq<String>) -> Seq<Seq<char>> {
    strings.map_values(|s: String| s@)
}

/// `parts` written one after the other with `sep` between neighbours.
pub open spec fn joined(parts: Seq<Seq<char>>, sep: Seq<char>) -> Seq<char>
    decreases parts.len(),
{
    if parts.len() == 0 {
        Seq::empty()
    } else if parts.len() == 1 {
        parts[0]
    } else {
        joined(parts.drop_last(), sep) + sep + parts.last()
    }
}

/// All of `parts` concatenated.
pub open spec fn concatenated(parts: Seq<Seq<char>>) -> Seq<char>
    decreases parts.len(),
{
    if parts.len() == 0 {
        Seq::empty()
    } else {
        concatenated(parts.drop_last()) + parts.last()
    }
}

/// The width of a text in a column: the number of bytes it is stored in.
pub open spec fn byte_width(s: Seq<char>) -> nat {
    encode_utf8(s).len()
}

/// `n` spaces.
pub open spec fn spaces(n: nat) -> Seq<char> {
    Seq::new(n, |i: int| ' ')
}

/// `s` moved to the right edge of a column `width` wide; a text wider than
/// the column is left as it is.
pub open spec fn padded(s: Seq<char>, width: nat) -> Seq<char> {
    if byte_width(s) <= width {
        spaces((width - byte_width(s)) as nat) + s
    } else {
        s
    }
}

/// Whether the two characters `": "` stand at position `i` of `line`.
pub open spec fn separator_at(line: Seq<char>, i: int) -> bool {
    0 <= i && i + 1 < line.len() && line[i] == ':' && line[i + 1] == ' '
}

/// Whether `i` is the first position of `line` at which `": "` stands.
pub open spec fn first_separator(line: Seq<char>, i: int) -> bool {
    separator_at(line, i) && forall|k: int| 0 <= k < i ==> !separator_at(line, k)
}

/// Whether `": "` stands anywhere in `line`.
pub open spec fn has_separator(line: Seq<char>) -> bool {
    exists|i: int| separator_at(line, i)
}

/// Joins `parts` with `sep` between neighbours.
pub fn join(parts: &Vec<String>, sep: &str) -> (r: String)
    ensures
        r@ == joined(texts(parts@), sep@),
{
    let mut out = String::new();
    let mut i: usize = 0;
    while i < parts.len()
        invariant
            i <= parts.len(),
            out@ == joined(texts(parts@).take(i as int), sep@),
        decreases parts.len() - i,
    {
        proof {
            assert(texts(parts@).take(i + 1).drop_last() == texts(parts@).take(i as int));
        }
        if i > 0 {
            out.append(sep);
        }
        out.append(parts[i].as_str());
        i = i + 1;
    }
    proof {
        assert(texts(parts@).take(parts.len() as int) == texts(parts@));
    }
    out
}

/// Pads `s` with spaces on the left to `len` bytes; a longer `s` is returned
/// unchanged.
pub fn pad_string(s: &str, len: usize) -> (r: String)
    ensures
        r@ == padded(s@, len as nat),
{
    let width: usize = s.as_bytes().len();
    let mut out = String::new();
    if width <= len {
        let padding: usize = len - width;
        let mut k: usize = 0;
        while k < padding
            invariant
                k <= padding,
                out@ == spaces(k as nat),
            decreases padding - k,
        {
            proof {
                reveal_strlit(" ");
            }
            out.append(" ");
            k = k + 1;
        }
    }
    out.append(s);
    out
}

/// The position of the first `": "` in `line`, counted in characters.
pub fn find_separator(line: &str) -> (r: Option<usize>)
    ensures
        match r {
            Some(i) => first_separator(line@, i as int),
            None => !has_separator(line@),
        },
{
    let n: usize = line.unicode_len();
    let mut i: usize = 0;
    let mut after_colon = false;
    for c in it: line.chars()
        invariant
            i == it.index(),
            it.seq() == line@,
            line@.len() == n,
            after_colon <==> (i > 0 && line@[i - 1] == ':'),
            forall|k: int| 0 <= k && k + 1 < i ==> !separator_at(line@, k),
    {
        if after_colon && c == ' ' {
            return Some(i - 1);
        }
        after_colon = c == ':';
        i = i + 1;
    }
    None
}

/// Splits `line` at its first `": "` into what stands before and what stands
/// after it; `None` where the line holds no `": "`.
pub fn split_at_separator(line: &str) -> (r: Option<(String, String)>)
    ensures
        match r {
            Some((name, value)) => exists|i: int|
                first_separator(line@, i) && name@ == line@.subrange(0, i) && value@
                    == line@.subrange(i + 2, line@.len() as int),
            None => !has_separator(line@),
        },
{
    match find_separator(line) {
        Some(i) => {
            let n: usize = line.unicode_len();
            let name = line.substring_char(0, i).to_owned();
            let value = line.substring_char(i + 2, n).to_owned();
            Some((name, value))
        },
        None => None,
    }
}

} // verus!
