use vstd::prelude::*;
use prev_iter::PrevPeekable;

verus! {

#[verifier::external_type_specification]
#[verifier::external_body]
#[verifier::reject_recursive_types(I)]
pub struct ExPrevPeekable<I>(PrevPeekable<I>) where
    I: Iterator,
    <I as Iterator>::Item: Clone,
;

/// A place in a sequence of tokens: a `PrevPeekable` over their indices.
pub struct TokenCursor {
    pub iter: PrevPeekable<std::ops::Range<usize>>,
}

/// The index that a cursor over token indices gives next (its end once
/// it is used up).
pub uninterp spec fn peekable_index(c: PrevPeekable<std::ops::Range<usize>>) -> nat;

/// The end of the range of indices that the cursor walks.
pub uninterp spec fn peekable_end(c: PrevPeekable<std::ops::Range<usize>>) -> nat;

pub open spec fn cursor_index(c: TokenCursor) -> nat {
    peekable_index(c.iter)
}

pub open spec fn cursor_end(c: TokenCursor) -> nat {
    peekable_end(c.iter)
}

/// Relies on `PrevPeekable::new` over the range `0..n`: it will give the
/// indices from 0 up to `n`, in order.
#[verifier::external_body]
fn peekable_new(n: usize) -> (r: PrevPeekable<std::ops::Range<usize>>)
    ensures
        peekable_index(r) == 0,
        peekable_end(r) == n,
{
    PrevPeekable::new(0..n)
}

/// Relies on `PrevPeekable::peek`: the index that comes next, if any,
/// without consuming it.
#[verifier::external_body]
fn peekable_peek(c: &mut PrevPeekable<std::ops::Range<usize>>) -> (r: Option<usize>)
    ensures
        peekable_index(*final(c)) == peekable_index(*old(c)),
        peekable_end(*final(c)) == peekable_end(*old(c)),
        r == (if peekable_index(*old(c)) < peekable_end(*old(c)) {
            Some(peekable_index(*old(c)) as usize)
        } else {
            None
        }),
{
    c.peek().copied()
}

/// Relies on `PrevPeekable::next`: the index that comes next, if any,
/// consumed.
#[verifier::external_body]
fn peekable_next(c: &mut PrevPeekable<std::ops::Range<usize>>) -> (r: Option<usize>)
    ensures
        peekable_end(*final(c)) == peekable_end(*old(c)),
        peekable_index(*old(c)) < peekable_end(*old(c)) ==> r == Some(peekable_index(*old(c)) as usize)
            && peekable_index(*final(c)) == peekable_index(*old(c)) + 1,
        peekable_index(*old(c)) >= peekable_end(*old(c)) ==> r is None && peekable_index(*final(c))
            == peekable_index(*old(c)),
{
    c.next()
}

/// A cursor over the indices `0..n`.
pub fn cursor_new(n: usize) -> (r: TokenCursor)
    ensures
        cursor_index(r) == 0,
        cursor_end(r) == n,
{
    TokenCursor { iter: peekable_new(n) }
}

/// The index that comes next, if any.
pub fn cursor_peek(c: &mut TokenCursor) -> (r: Option<usize>)
    ensures
        cursor_index(*final(c)) == cursor_index(*old(c)),
        cursor_end(*final(c)) == cursor_end(*old(c)),
        r == (if cursor_index(*old(c)) < cursor_end(*old(c)) {
            Some(cursor_index(*old(c)) as usize)
        } else {
            None
        }),
{
    peekable_peek(&mut c.iter)
}

/// The index that comes next, if any, consumed.
pub fn cursor_next(c: &mut TokenCursor) -> (r: Option<usize>)
    ensures
        cursor_end(*final(c)) == cursor_end(*old(c)),
        cursor_index(*old(c)) < cursor_end(*old(c)) ==> r == Some(cursor_index(*old(c)) as usize)
            && cursor_index(*final(c)) == cursor_index(*old(c)) + 1,
        cursor_index(*old(c)) >= cursor_end(*old(c)) ==> r is None && cursor_index(*final(c))
            == cursor_index(*old(c)),
{
    peekable_next(&mut c.iter)
}

} // verus!
