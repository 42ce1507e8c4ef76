//! Recognition of the control sequences by which a terminal program switches
//! to the alternate screen: `ESC [ ? params h`, where the parameters are
//! digits separated by semicolons and one of them is 47, 1047 or 1049.

use vstd::prelude::*;
use vstd::slice::slice_subrange;

verus! {

pub const ESCAPE: u8 = 0x1b;

pub const BRACKET: u8 = 0x5b;

pub const QUESTION_MARK: u8 = 0x3f;

pub const SEMICOLON: u8 = 0x3b;

pub const LETTER_H: u8 = 0x68;

pub const ZERO: u8 = 0x30;

pub const ONE: u8 = 0x31;

pub const FOUR: u8 = 0x34;

pub const SEVEN: u8 = 0x37;

pub const NINE: u8 = 0x39;

pub open spec fn is_param_byte(byte: u8) -> bool {
    ZERO <= byte <= NINE || byte == SEMICOLON
}

pub open spec fn names_alternate_screen(param: Seq<u8>) -> bool {
    ||| param == seq![FOUR, SEVEN]
    ||| param == seq![ONE, ZERO, FOUR, SEVEN]
    ||| param == seq![ONE, ZERO, FOUR, NINE]
}

/// Whether the bytes from `from` up to `to` are one parameter of the list.
pub open spec fn is_param(params: Seq<u8>, from: int, to: int) -> bool {
    &&& 0 <= from <= to <= params.len()
    &&& from == 0 || params[from - 1] == SEMICOLON
    &&& to == params.len() || params[to] == SEMICOLON
    &&& forall|k: int| from <= k < to ==> params[k] != SEMICOLON
}

/// Whether some parameter of the list names the alternate screen.
pub open spec fn lists_alternate_screen(params: Seq<u8>) -> bool {
    exists|from: int, to: int| #[trigger]
        is_param(params, from, to) && names_alternate_screen(params.subrange(from, to))
}

/// Whether `bytes` hold a switch to the alternate screen whose escape byte is
/// at `at` and whose final byte is at `last`.
pub open spec fn enters_at(bytes: Seq<u8>, at: int, last: int) -> bool {
    &&& 0 <= at
    &&& at + 3 <= last < bytes.len()
    &&& bytes[at] == ESCAPE
    &&& bytes[at + 1] == BRACKET
    &&& bytes[at + 2] == QUESTION_MARK
    &&& forall|k: int| at + 3 <= k < last ==> is_param_byte(#[trigger] bytes[k])
    &&& bytes[last] == LETTER_H
    &&& lists_alternate_screen(bytes.subrange(at + 3, last))
}

/// Whether `bytes` hold a switch to the alternate screen.
pub open spec fn enters_alternate_screen(bytes: Seq<u8>) -> bool {
    exists|at: int, last: int| enters_at(bytes, at, last)
}

fn is_alternate_screen(params: &[u8], from: usize, to: usize) -> (named: bool)
    requires
        from <= to <= params@.len(),
    ensures
        named == names_alternate_screen(params@.subrange(from as int, to as int)),
{
    let len: usize = to - from;
    let named = if len == 2 {
        params[from] == FOUR && params[from + 1] == SEVEN
    } else if len == 4 {
        params[from] == ONE && params[from + 1] == ZERO && params[from + 2] == FOUR && (
        params[from + 3] == SEVEN || params[from + 3] == NINE)
    } else {
        false
    };
    proof {
        let param = params@.subrange(from as int, to as int);
        let mode_47 = seq![FOUR, SEVEN];
        let mode_1047 = seq![ONE, ZERO, FOUR, SEVEN];
        let mode_1049 = seq![ONE, ZERO, FOUR, NINE];
        assert(mode_47.len() == 2 && mode_47[0] == FOUR && mode_47[1] == SEVEN);
        assert(mode_1047.len() == 4 && mode_1047[0] == ONE && mode_1047[1] == ZERO);
        assert(mode_1047[2] == FOUR && mode_1047[3] == SEVEN);
        assert(mode_1049.len() == 4 && mode_1049[0] == ONE && mode_1049[1] == ZERO);
        assert(mode_1049[2] == FOUR && mode_1049[3] == NINE);
        if named {
            assert(param =~= mode_47 || param =~= mode_1047 || param =~= mode_1049);
        }
    }
    named
}

/// A parameter that ends between the beginning and the end of another is that
/// other.
proof fn lemma_param_is_current(params: Seq<u8>, from: int, to: int, a: int, b: int)
    requires
        is_param(params, from, to),
        is_param(params, a, b),
        from <= b <= to,
    ensures
        a == from,
        b == to,
{
    if a > from {
        assert(params[a - 1] == SEMICOLON);
    } else if a < from {
        assert(params[from - 1] == SEMICOLON);
    }
}

fn any_alternate_screen(params: &[u8]) -> (listed: bool)
    ensures
        listed == lists_alternate_screen(params@),
{
    let mut from: usize = 0;
    let mut to: usize = 0;
    while to < params.len()
        invariant
            from <= to <= params@.len(),
            from == 0 || params@[from - 1] == SEMICOLON,
            forall|k: int| from <= k < to ==> params@[k] != SEMICOLON,
            forall|a: int, b: int| #[trigger]
                is_param(params@, a, b) && b < from ==> !names_alternate_screen(
                    params@.subrange(a, b),
                ),
        decreases params@.len() - to,
    {
        if params[to] == SEMICOLON {
            assert(is_param(params@, from as int, to as int));
            if is_alternate_screen(params, from, to) {
                return true;
            }
            assert forall|a: int, b: int| #[trigger]
                is_param(params@, a, b) && b < to + 1 implies !names_alternate_screen(
                params@.subrange(a, b),
            ) by {
                if b >= from {
                    lemma_param_is_current(params@, from as int, to as int, a, b);
                }
            }
            from = to + 1;
        }
        to = to + 1;
    }
    let named = is_alternate_screen(params, from, to);
    proof {
        assert(is_param(params@, from as int, to as int));
        if !named {
            assert forall|a: int, b: int| #[trigger]
                is_param(params@, a, b) implies !names_alternate_screen(params@.subrange(a, b)) by {
                if b >= from {
                    lemma_param_is_current(params@, from as int, to as int, a, b);
                }
            }
        }
    }
    named
}

pub fn contains_alternate_screen_enter(bytes: &[u8]) -> (found: bool)
    ensures
        found == enters_alternate_screen(bytes@),
{
    let len: usize = bytes.len();
    let mut index: usize = 0;
    while index < len && len - index > 3
        invariant
            len == bytes@.len(),
            index <= len,
            forall|at: int, last: int| #[trigger] enters_at(bytes@, at, last) ==> at >= index,
        decreases len - index,
    {
        if bytes[index] == ESCAPE && bytes[index + 1] == BRACKET && bytes[index + 2] == QUESTION_MARK {
            let params_start: usize = index + 3;
            let mut end: usize = params_start;
            while end < len && (ZERO <= bytes[end] && bytes[end] <= NINE || bytes[end] == SEMICOLON)
                invariant
                    len == bytes@.len(),
                    params_start <= end <= len,
                    forall|k: int|
                        params_start <= k < end ==> is_param_byte(#[trigger] bytes@[k]),
                decreases len - end,
            {
                end = end + 1;
            }
            if end < len && bytes[end] == LETTER_H && any_alternate_screen(
                slice_subrange(bytes, params_start, end),
            ) {
                assert(enters_at(bytes@, index as int, end as int));
                return true;
            }
            assert forall|at: int, last: int| #[trigger]
                enters_at(bytes@, at, last) implies at >= index + 1 by {
                if at == index {
                    if last < end {
                        assert(is_param_byte(bytes@[last]));
                    } else if last > end {
                        assert(is_param_byte(bytes@[end as int]));
                    }
                }
            }
        }
        index = index + 1;
    }
    false
}

} // verus!
