//! The list of input files: a text with one path per line.

use vstd::prelude::*;
use vstd::string::StrSliceExecFns;

verus! {

/// Whether a character is white space, as Unicode has it.
pub open spec fn is_space(c: char) -> bool {
    let code = c as u32;
    ||| 0x09 <= code <= 0x0d
    ||| code == 0x20
    ||| code == 0x85
    ||| code == 0xa0
    ||| code == 0x1680
    ||| 0x2000 <= code <= 0x200a
    ||| code == 0x2028
    ||| code == 0x2029
    ||| code == 0x202f
    ||| code == 0x205f
    ||| code == 0x3000
}

/// Decides whether a character is white space.
pub fn space(c: char) -> (r: bool)
    ensures
        r == is_space(c),
{
    let code: u32 = c as u32;
    (0x09 <= code && code <= 0x0d) || code == 0x20 || code == 0x85 || code == 0xa0 || code
        == 0x1680 || (0x2000 <= code && code <= 0x200a) || code == 0x2028 || code == 0x2029
        || code == 0x202f || code == 0x205f || code == 0x3000
}

/// The characters of a text.
pub fn chars_of(text: &str) -> (chars: Vec<char>)
    ensures
        chars@ == text@,
{
    let mut chars: Vec<char> = Vec::new();
    for c in it: text.chars()
        invariant
            chars@ == it.seq().take(it.index() as int),
    {
        chars.push(c);
    }
    chars
}

/// The number of characters before the first line feed, and the length of
/// the text where it has none.
pub open spec fn first_newline(text: Seq<char>) -> int
    decreases text.len(),
{
    if text.len() == 0 {
        0
    } else if text[0] == '\n' {
        0
    } else {
        1 + first_newline(text.skip(1))
    }
}

/// A line without the white space at its start.
pub open spec fn trim_start(line: Seq<char>) -> Seq<char>
    decreases line.len(),
{
    if line.len() > 0 && is_space(line[0]) {
        trim_start(line.skip(1))
    } else {
        line
    }
}

/// A line without the white space at its end.
pub open spec fn trim_end(line: Seq<char>) -> Seq<char>
    decreases line.len(),
{
    if line.len() > 0 && is_space(line.last()) {
        trim_end(line.drop_last())
    } else {
        line
    }
}

/// A line without the white space at its start and at its end.
pub open spec fn trimmed(line: Seq<char>) -> Seq<char> {
    trim_end(trim_start(line))
}

/// The entries of a list: its lines, each without the white space around
/// it, but for the lines that hold nothing else.  Lines end at a line feed;
/// the last line may do without.
pub open spec fn entries_in(text: Seq<char>) -> Seq<Seq<char>>
    decreases text.len(),
{
    if text.len() == 0 {
        Seq::empty()
    } else {
        let k = first_newline(text);
        let entry = trimmed(text.take(k));
        let rest = if 0 <= k < text.len() {
            entries_in(text.skip(k + 1))
        } else {
            Seq::empty()
        };
        if entry.len() > 0 {
            seq![entry] + rest
        } else {
            rest
        }
    }
}

/// Whether a list has a line that holds nothing but white space.
pub open spec fn blank_line_in(text: Seq<char>) -> bool
    decreases text.len(),
{
    if text.len() == 0 {
        false
    } else {
        let k = first_newline(text);
        trimmed(text.take(k)).len() == 0 || (0 <= k < text.len() && blank_line_in(text.skip(k + 1)))
    }
}

/// Finds the end of the line that starts at `from`.
fn line_end(chars: &Vec<char>, from: usize) -> (end: usize)
    requires
        from <= chars@.len(),
    ensures
        from <= end <= chars@.len(),
        end - from == first_newline(chars@.skip(from as int)),
{
    let mut end: usize = from;
    while end < chars.len() && chars[end] != '\n'
        invariant
            from <= end <= chars@.len(),
            first_newline(chars@.skip(from as int)) == (end - from) + first_newline(
                chars@.skip(end as int),
            ),
        decreases chars@.len() - end,
    {
        proof {
            assert(chars@.skip(end as int).skip(1) =~= chars@.skip(end + 1));
        }
        end = end + 1;
    }
    end
}

/// Finds the bounds of a line without the white space around it.
fn trim_bounds(chars: &Vec<char>, from: usize, to: usize) -> (r: (usize, usize))
    requires
        from <= to <= chars@.len(),
    ensures
        from <= r.0 <= r.1 <= to,
        chars@.subrange(r.0 as int, r.1 as int) == trimmed(chars@.subrange(from as int, to as int)),
{
    let mut a: usize = from;
    while a < to && space(chars[a])
        invariant
            from <= a <= to <= chars@.len(),
            trim_start(chars@.subrange(from as int, to as int)) == trim_start(
                chars@.subrange(a as int, to as int),
            ),
        decreases to - a,
    {
        proof {
            assert(chars@.subrange(a as int, to as int).skip(1) =~= chars@.subrange(
                a + 1,
                to as int,
            ));
        }
        a = a + 1;
    }
    let mut b: usize = to;
    while a < b && space(chars[b - 1])
        invariant
            a <= b <= to <= chars@.len(),
            trim_end(chars@.subrange(a as int, to as int)) == trim_end(
                chars@.subrange(a as int, b as int),
            ),
        decreases b - a,
    {
        proof {
            assert(chars@.subrange(a as int, b as int).drop_last() =~= chars@.subrange(
                a as int,
                b - 1,
            ));
        }
        b = b - 1;
    }
    (a, b)
}

/// Why a list yields no entries.
#[derive(Debug, PartialEq, Eq)]
pub enum ListError {
    /// A line holds nothing but white space, and such lines are not put up
    /// with.
    BlankLine,
    /// The list holds no entry.
    Empty,
}

/// Whether `entries` holds the texts `texts`, one by one.
pub open spec fn holds_texts(entries: Seq<String>, texts: Seq<Seq<char>>) -> bool {
    &&& entries.len() == texts.len()
    &&& forall|i: int| 0 <= i < entries.len() ==> (#[trigger] entries[i])@ == texts[i]
}

/// Reads the entries of a list: one per line that holds more than white
/// space, without the white space around it.
///
/// Lines that hold nothing else are passed over, or, with `reject_blank`
/// set, have the list refused.  A list without an entry is refused.
pub fn list_entries(text: &str, reject_blank: bool) -> (r: Result<Vec<String>, ListError>)
    ensures
        match r {
            Ok(entries) => {
                &&& !(reject_blank && blank_line_in(text@))
                &&& entries@.len() > 0
                &&& holds_texts(entries@, entries_in(text@))
            },
            Err(ListError::BlankLine) => reject_blank && blank_line_in(text@),
            Err(ListError::Empty) => {
                &&& !(reject_blank && blank_line_in(text@))
                &&& entries_in(text@).len() == 0
            },
        },
{
    let chars: Vec<char> = chars_of(text);
    let n: usize = chars.len();
    let mut entries: Vec<String> = Vec::new();
    let ghost mut found: Seq<Seq<char>> = Seq::empty();
    let mut pos: usize = 0;
    proof {
        assert(chars@.skip(0) =~= chars@);
    }
    while pos < n
        invariant
            pos <= n == chars@.len(),
            chars@ == text@,
            holds_texts(entries@, found),
            entries_in(text@) == found + entries_in(chars@.skip(pos as int)),
            reject_blank ==> blank_line_in(text@) == blank_line_in(chars@.skip(pos as int)),
        decreases n - pos,
    {
        let ghost rest = chars@.skip(pos as int);
        let end: usize = line_end(&chars, pos);
        let (a, b) = trim_bounds(&chars, pos, end);
        proof {
            assert(rest.take(end - pos) =~= chars@.subrange(pos as int, end as int));
            if end < n {
                assert(rest.skip(end - pos + 1) =~= chars@.skip(end + 1));
            }
        }
        let next: usize = if end < n {
            end + 1
        } else {
            n
        };
        proof {
            if end >= n {
                assert(chars@.skip(n as int).len() == 0);
            }
        }
        if a < b {
            let entry: String = text.substring_char(a, b).to_owned();
            entries.push(entry);
            proof {
                let longer = found.push(chars@.subrange(a as int, b as int));
                assert(found + (seq![chars@.subrange(a as int, b as int)] + entries_in(
                    chars@.skip(next as int),
                )) =~= longer + entries_in(chars@.skip(next as int)));
                found = longer;
            }
        } else if reject_blank {
            return Err(ListError::BlankLine);
        }
        pos = next;
    }
    proof {
        assert(found + entries_in(chars@.skip(pos as int)) =~= found);
    }
    if entries.len() == 0 {
        Err(ListError::Empty)
    } else {
        Ok(entries)
    }
}

} // verus!
