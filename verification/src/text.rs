//! Fixed-width text: filling, aligning and joining rows of characters.
//!
//! Widths count characters, not bytes.

use vstd::prelude::*;

verus! {

/// `n` copies of the character `c`.
pub open spec fn fill(c: char, n: int) -> Seq<char> {
    Seq::new(if n > 0 { n as nat } else { 0 }, |i: int| c)
}

/// `s` moved to the right end of a field `width` wide, with blanks before it.
/// A text longer than the field is left as it is.
pub open spec fn right_aligned(s: Seq<char>, width: int) -> Seq<char> {
    fill(' ', width - s.len()) + s
}

/// `s` in the middle of a field `width` wide, with `c` on both sides. Where
/// the free space is odd, the extra `c` stands after `s`. A text longer than
/// the field is left as it is.
pub open spec fn centered(s: Seq<char>, width: int, c: char) -> Seq<char> {
    let free: int = if width > s.len() { width - s.len() } else { 0 };
    fill(c, free / 2) + s + fill(c, free - free / 2)
}

/// Every row followed by a line feed.
pub open spec fn lines(rows: Seq<Seq<char>>) -> Seq<char>
    decreases rows.len(),
{
    if rows.len() == 0 {
        Seq::<char>::empty()
    } else {
        lines(rows.drop_last()) + rows.last() + seq!['\n']
    }
}

/// The rows with a line feed between each two of them.
pub open spec fn joined(rows: Seq<Seq<char>>) -> Seq<char>
    decreases rows.len(),
{
    if rows.len() == 0 {
        Seq::<char>::empty()
    } else if rows.len() == 1 {
        rows[0]
    } else {
        joined(rows.drop_last()) + seq!['\n'] + rows.last()
    }
}

/// Appends `n` copies of the one-character text `unit`.
pub(crate) fn push_fill(text: &mut String, unit: &str, n: usize)
    requires
        unit@.len() == 1,
    ensures
        final(text)@ == old(text)@ + fill(unit@[0], n as int),
{
    let mut i: usize = 0;
    while i < n
        invariant
            i <= n,
            unit@.len() == 1,
            text@ == old(text)@ + fill(unit@[0], i as int),
        decreases n - i,
    {
        text.append(unit);
        i += 1;
        assert(text@ =~= old(text)@ + fill(unit@[0], i as int));
    }
}

/// Appends `s`, right-aligned in a field `width` wide.
pub(crate) fn push_right_aligned(text: &mut String, s: &str, width: usize)
    ensures
        final(text)@ == old(text)@ + right_aligned(s@, width as int),
{
    let len: usize = s.unicode_len();
    proof {
        reveal_strlit(" ");
    }
    if len < width {
        push_fill(text, " ", width - len);
    }
    text.append(s);
    assert(text@ =~= old(text)@ + right_aligned(s@, width as int));
}

/// Appends `s`, centred in a field `width` wide between copies of the
/// one-character text `unit`.
pub(crate) fn push_centered(text: &mut String, s: &str, width: usize, unit: &str)
    requires
        unit@.len() == 1,
    ensures
        final(text)@ == old(text)@ + centered(s@, width as int, unit@[0]),
{
    let len: usize = s.unicode_len();
    let free: usize = if width > len { width - len } else { 0 };
    push_fill(text, unit, free / 2);
    text.append(s);
    push_fill(text, unit, free - free / 2);
    assert(text@ =~= old(text)@ + centered(s@, width as int, unit@[0]));
}

/// The rows as one text, with a line feed between each two of them.
pub(crate) fn join(rows: &Vec<String>) -> (text: String)
    ensures
        text@ == joined(rows.deep_view()),
{
    let mut text = String::new();
    let mut i: usize = 0;
    while i < rows.len()
        invariant
            i <= rows.len(),
            text@ == joined(rows.deep_view().take(i as int)),
        decreases rows.len() - i,
    {
        if i > 0 {
            proof {
                reveal_strlit("\n");
            }
            text.append("\n");
        }
        text.append(rows[i].as_str());
        i += 1;
        proof {
            let before = rows.deep_view().take(i as int - 1);
            let now = rows.deep_view().take(i as int);
            assert(now.drop_last() =~= before);
            assert(now.last() == rows[i as int - 1]@);
            assert(now.len() == i);
            assert(before.len() == i - 1);
            if i == 1 {
                assert(joined(before) =~= Seq::<char>::empty());
                assert(joined(now) == now[0]);
            } else {
                assert(joined(now) == joined(before) + seq!['\n'] + now.last());
            }
            assert(text@ =~= joined(now));
        }
    }
    assert(rows.deep_view().take(rows.len() as int) =~= rows.deep_view());
    text
}

} // verus!
