//! Which output is taken for a switch to the alternate screen.

use vstd::prelude::*;

use crate::alt_screen::{enters_alternate_screen, enters_at, is_param, is_param_byte};
use crate::alt_screen::{lists_alternate_screen, names_alternate_screen};
use crate::journal::StreamView;

verus! {

/// Whether the bytes from `from` up to `to` are the digits 47, 1047 or 1049.
pub open spec fn is_mode(bytes: Seq<u8>, from: int, to: int) -> bool {
    ||| {
        &&& to == from + 2
        &&& bytes[from] == 0x34
        &&& bytes[from + 1] == 0x37
    }
    ||| {
        &&& to == from + 4
        &&& bytes[from] == 0x31
        &&& bytes[from + 1] == 0x30
        &&& bytes[from + 2] == 0x34
        &&& bytes[from + 3] == 0x37 || bytes[from + 3] == 0x39
    }
}

/// Whether the bytes from `from` up to `to` are one of the three modes, between
/// semicolons or the ends of the list that reaches from `first` up to `last`.
pub open spec fn mode_in_list(bytes: Seq<u8>, first: int, from: int, to: int, last: int) -> bool {
    &&& first <= from < to <= last
    &&& from == first || bytes[from - 1] == 0x3b
    &&& to == last || bytes[to] == 0x3b
    &&& is_mode(bytes, from, to)
}

/// The control sequence with the given parameters.
pub open spec fn private_mode_set(params: Seq<u8>) -> Seq<u8> {
    seq![0x1bu8, 0x5bu8, 0x3fu8] + params + seq![0x68u8]
}

/// Whether all bytes are decimal digits.
pub open spec fn all_digits(bytes: Seq<u8>) -> bool {
    forall|k: int| 0 <= k < bytes.len() ==> 0x30 <= #[trigger] bytes[k] <= 0x39
}

/// Whether all bytes are decimal digits or semicolons.
pub open spec fn all_params(bytes: Seq<u8>) -> bool {
    forall|k: int|
        0 <= k < bytes.len() ==> 0x30 <= #[trigger] bytes[k] <= 0x39 || bytes[k] == 0x3b
}

proof fn lemma_names_is_mode(bytes: Seq<u8>, from: int, to: int)
    requires
        0 <= from <= to <= bytes.len(),
    ensures
        names_alternate_screen(bytes.subrange(from, to)) <==> is_mode(bytes, from, to),
{
    let param = bytes.subrange(from, to);
    let mode_47 = seq![0x34u8, 0x37u8];
    let mode_1047 = seq![0x31u8, 0x30u8, 0x34u8, 0x37u8];
    let mode_1049 = seq![0x31u8, 0x30u8, 0x34u8, 0x39u8];
    assert(mode_47.len() == 2 && mode_47[0] == 0x34 && mode_47[1] == 0x37);
    assert(mode_1047.len() == 4 && mode_1047[0] == 0x31 && mode_1047[1] == 0x30);
    assert(mode_1047[2] == 0x34 && mode_1047[3] == 0x37);
    assert(mode_1049.len() == 4 && mode_1049[0] == 0x31 && mode_1049[1] == 0x30);
    assert(mode_1049[2] == 0x34 && mode_1049[3] == 0x39);
    if is_mode(bytes, from, to) {
        assert(param =~= mode_47 || param =~= mode_1047 || param =~= mode_1049);
    }
    if names_alternate_screen(param) {
        assert(bytes[from] == param[0] && bytes[from + 1] == param[1]);
        if param.len() == 4 {
            assert(bytes[from + 2] == param[2] && bytes[from + 3] == param[3]);
        }
    }
}

proof fn lemma_lists_is_mode_in_list(params: Seq<u8>)
    ensures
        lists_alternate_screen(params) <==> exists|from: int, to: int| #[trigger]
            mode_in_list(params, 0, from, to, params.len() as int),
{
    let len = params.len() as int;
    if lists_alternate_screen(params) {
        let (from, to) = choose|from: int, to: int| #[trigger]
            is_param(params, from, to) && names_alternate_screen(params.subrange(from, to));
        lemma_names_is_mode(params, from, to);
        assert(mode_in_list(params, 0, from, to, len));
    }
    if exists|from: int, to: int| #[trigger] mode_in_list(params, 0, from, to, len) {
        let (from, to) = choose|from: int, to: int| #[trigger]
            mode_in_list(params, 0, from, to, len);
        lemma_names_is_mode(params, from, to);
        assert(is_param(params, from, to));
    }
}

/// Only the three modes count, and they count wherever they stand in the list: a
/// switch to the alternate screen is `ESC [ ?`, digits and semicolons, and `h`,
/// where the digits between two semicolons, or next to an end of the list, are
/// exactly 47, 1047 or 1049.
pub proof fn law_only_the_three_modes_count(bytes: Seq<u8>, at: int, last: int)
    requires
        0 <= at,
        at + 3 <= last < bytes.len(),
    ensures
        enters_at(bytes, at, last) <==> {
            &&& bytes[at] == 0x1b
            &&& bytes[at + 1] == 0x5b
            &&& bytes[at + 2] == 0x3f
            &&& all_params(bytes.subrange(at + 3, last))
            &&& bytes[last] == 0x68
            &&& exists|from: int, to: int| #[trigger] mode_in_list(bytes, at + 3, from, to, last)
        },
{
    let params = bytes.subrange(at + 3, last);
    let len = params.len() as int;
    lemma_lists_is_mode_in_list(params);
    if exists|from: int, to: int| #[trigger] mode_in_list(bytes, at + 3, from, to, last) {
        let (from, to) = choose|from: int, to: int| #[trigger]
            mode_in_list(bytes, at + 3, from, to, last);
        assert(mode_in_list(params, 0, from - at - 3, to - at - 3, len));
    }
    if exists|from: int, to: int| #[trigger] mode_in_list(params, 0, from, to, len) {
        let (from, to) = choose|from: int, to: int| #[trigger]
            mode_in_list(params, 0, from, to, len);
        assert(mode_in_list(bytes, at + 3, from + at + 3, to + at + 3, last));
    }
    if all_params(params) {
        assert forall|k: int| at + 3 <= k < last implies is_param_byte(#[trigger] bytes[k]) by {
            assert(params[k - at - 3] == bytes[k]);
        }
    }
    if forall|k: int| at + 3 <= k < last ==> is_param_byte(#[trigger] bytes[k]) {
        assert forall|k: int| 0 <= k < params.len() implies 0x30 <= #[trigger] params[k] <= 0x39
            || params[k] == 0x3b by {
            assert(is_param_byte(bytes[k + at + 3]));
        }
    }
}

/// Output holds a switch exactly if one stands somewhere in it.
pub proof fn law_a_switch_stands_somewhere(bytes: Seq<u8>)
    ensures
        enters_alternate_screen(bytes) <==> exists|at: int, last: int| #[trigger]
            enters_at(bytes, at, last) && 0 <= at && at + 3 <= last < bytes.len(),
{
    if enters_alternate_screen(bytes) {
        let (at, last) = choose|at: int, last: int| enters_at(bytes, at, last);
        assert(enters_at(bytes, at, last));
    }
}

proof fn lemma_set_enters(params: Seq<u8>)
    requires
        all_params(params),
    ensures
        enters_alternate_screen(private_mode_set(params)) <==> exists|from: int, to: int| #[trigger]
            mode_in_list(params, 0, from, to, params.len() as int),
{
    let bytes = private_mode_set(params);
    let end = params.len() as int + 3;
    assert(bytes.len() == end + 1);
    assert(bytes[0] == 0x1b && bytes[1] == 0x5b && bytes[2] == 0x3f && bytes[end] == 0x68);
    assert(bytes.subrange(3, end) =~= params);
    assert forall|k: int| 3 <= k < end implies bytes[k] == params[k - 3] by {}
    lemma_lists_is_mode_in_list(params);
    if enters_alternate_screen(bytes) {
        let (at, last) = choose|at: int, last: int| enters_at(bytes, at, last);
        if 3 <= at < end {
            assert(bytes[at] == params[at - 3]);
        }
        if 3 <= last < end {
            assert(bytes[last] == params[last - 3]);
        }
        assert(at == 0 && last == end);
    }
    if lists_alternate_screen(params) {
        assert forall|k: int| 3 <= k < end implies is_param_byte(#[trigger] bytes[k]) by {
            assert(bytes[k] == params[k - 3]);
        }
        assert(enters_at(bytes, 0, end));
    }
}

/// Setting a single mode is a switch for 47, 1047 and 1049, and for no other
/// number.
pub proof fn law_single_modes(number: Seq<u8>)
    requires
        all_digits(number),
    ensures
        enters_alternate_screen(private_mode_set(number)) <==> {
            ||| number == seq![0x34u8, 0x37u8]
            ||| number == seq![0x31u8, 0x30u8, 0x34u8, 0x37u8]
            ||| number == seq![0x31u8, 0x30u8, 0x34u8, 0x39u8]
        },
{
    let len = number.len() as int;
    lemma_set_enters(number);
    if exists|from: int, to: int| #[trigger] mode_in_list(number, 0, from, to, len) {
        let (from, to) = choose|from: int, to: int| #[trigger]
            mode_in_list(number, 0, from, to, len);
        assert(from == 0 && to == len);
        assert(number =~= seq![0x34u8, 0x37u8] || number =~= seq![0x31u8, 0x30u8, 0x34u8, 0x37u8]
            || number =~= seq![0x31u8, 0x30u8, 0x34u8, 0x39u8]);
    }
    if number == seq![0x34u8, 0x37u8] || number == seq![0x31u8, 0x30u8, 0x34u8, 0x37u8] || number
        == seq![0x31u8, 0x30u8, 0x34u8, 0x39u8] {
        assert(mode_in_list(number, 0, 0, len, len));
    }
}

/// A mode in a part of a list, where the part is bounded as the list is, is a mode
/// in the list.
proof fn lemma_mode_moves(part: Seq<u8>, whole: Seq<u8>, shift: int, from: int, to: int)
    requires
        0 <= shift,
        shift + part.len() <= whole.len(),
        forall|k: int| 0 <= k < part.len() ==> #[trigger] part[k] == whole[k + shift],
        shift == 0 || whole[shift - 1] == 0x3b,
        shift + part.len() == whole.len() || whole[shift + part.len()] == 0x3b,
    ensures
        mode_in_list(part, 0, from, to, part.len() as int) ==> mode_in_list(
            whole,
            0,
            from + shift,
            to + shift,
            whole.len() as int,
        ),
        0 <= from <= to <= part.len() && mode_in_list(
            whole,
            0,
            from + shift,
            to + shift,
            whole.len() as int,
        ) ==> mode_in_list(part, 0, from, to, part.len() as int),
{
    if 0 <= from && to <= part.len() {
        if from + 2 <= part.len() {
            assert(part[from] == whole[from + shift]);
            assert(part[from + 1] == whole[from + 1 + shift]);
        }
        if from + 4 <= part.len() {
            assert(part[from + 2] == whole[from + 2 + shift]);
            assert(part[from + 3] == whole[from + 3 + shift]);
        }
        if 0 < from <= part.len() {
            assert(part[from - 1] == whole[from - 1 + shift]);
        }
        if 0 <= to < part.len() {
            assert(part[to] == whole[to + shift]);
        }
    }
}

/// Setting two lists of modes at once is a switch exactly if setting one of them
/// is.
pub proof fn law_mode_lists_join(first: Seq<u8>, second: Seq<u8>)
    requires
        all_params(first),
        all_params(second),
    ensures
        enters_alternate_screen(private_mode_set(first + seq![0x3bu8] + second))
            <==> enters_alternate_screen(private_mode_set(first)) || enters_alternate_screen(
            private_mode_set(second),
        ),
{
    let both = first + seq![0x3bu8] + second;
    let cut = first.len() as int;
    let len = both.len() as int;
    assert(both[cut] == 0x3b);
    assert forall|k: int| 0 <= k < cut implies #[trigger] first[k] == both[k + 0] by {}
    assert forall|k: int| 0 <= k < second.len() implies #[trigger] second[k] == both[k + (cut
        + 1)] by {}
    assert(all_params(both)) by {
        assert forall|k: int| 0 <= k < len implies 0x30 <= #[trigger] both[k] <= 0x39 || both[k]
            == 0x3b by {
            if k < cut {
                assert(both[k] == first[k]);
            } else if k > cut {
                assert(both[k] == second[k - cut - 1]);
            }
        }
    }
    lemma_set_enters(first);
    lemma_set_enters(second);
    lemma_set_enters(both);
    if exists|from: int, to: int| #[trigger] mode_in_list(both, 0, from, to, len) {
        let (from, to) = choose|from: int, to: int| #[trigger] mode_in_list(both, 0, from, to, len);
        assert(to <= cut || from > cut) by {
            if from <= cut < to {
                assert(cut == from || cut == from + 1 || cut == from + 2 || cut == from + 3);
            }
        }
        if to <= cut {
            lemma_mode_moves(first, both, 0, from, to);
            assert(mode_in_list(first, 0, from, to, cut));
        } else {
            lemma_mode_moves(second, both, cut + 1, from - cut - 1, to - cut - 1);
            assert(mode_in_list(second, 0, from - cut - 1, to - cut - 1, second.len() as int));
        }
    }
    if exists|from: int, to: int| #[trigger] mode_in_list(first, 0, from, to, cut) {
        let (from, to) = choose|from: int, to: int| #[trigger] mode_in_list(first, 0, from, to, cut);
        lemma_mode_moves(first, both, 0, from, to);
        assert(mode_in_list(both, 0, from, to, len));
    }
    if exists|from: int, to: int| #[trigger]
        mode_in_list(second, 0, from, to, second.len() as int) {
        let (from, to) = choose|from: int, to: int| #[trigger]
            mode_in_list(second, 0, from, to, second.len() as int);
        lemma_mode_moves(second, both, cut + 1, from, to);
        assert(mode_in_list(both, 0, from + (cut + 1), to + (cut + 1), len));
    }
}

/// A switch is found whatever stands before and after it.
pub proof fn law_a_switch_is_found_anywhere(before: Seq<u8>, bytes: Seq<u8>, after: Seq<u8>)
    requires
        enters_alternate_screen(bytes),
    ensures
        enters_alternate_screen(before + bytes + after),
{
    let all = before + bytes + after;
    let shift = before.len() as int;
    let (at, last) = choose|at: int, last: int| enters_at(bytes, at, last);
    assert(all.subrange(at + shift + 3, last + shift) =~= bytes.subrange(at + 3, last));
    assert forall|k: int| at + shift + 3 <= k < last + shift implies is_param_byte(
        #[trigger] all[k],
    ) by {
        assert(all[k] == bytes[k - shift]);
    }
    assert(enters_at(all, at + shift, last + shift));
}

/// A read is scanned together with the remembered bytes, and nothing else.
pub proof fn law_scan_sees_what_is_remembered(stream: StreamView, bytes: Seq<u8>)
    ensures
        stream.sees_switch(bytes) <==> enters_alternate_screen(stream.scan_tail + bytes),
        enters_alternate_screen(bytes) ==> stream.sees_switch(bytes),
{
    if enters_alternate_screen(bytes) {
        law_a_switch_is_found_anywhere(stream.scan_tail, bytes, Seq::empty());
        assert(stream.scan_tail + bytes + Seq::empty() =~= stream.scan_tail + bytes);
    }
}

/// A switch that arrives in two reads is seen on the second one, wherever it is
/// cut and whatever was scanned before, if the first part has at most 64 bytes.
pub proof fn law_split_switch_is_seen(stream: StreamView, switch: Seq<u8>, cut: int)
    requires
        enters_alternate_screen(switch),
        0 <= cut <= switch.len(),
        cut <= 64,
    ensures
        stream.after_scan(switch.take(cut)).sees_switch(switch.skip(cut)),
{
    let part = switch.take(cut);
    let tail = stream.after_scan(part).scan_tail;
    let before = tail.take(tail.len() - cut);
    assert(tail.skip(tail.len() - cut) =~= part);
    law_a_switch_is_found_anywhere(before, switch, Seq::empty());
    assert(before + switch + Seq::empty() =~= tail + switch.skip(cut));
}

} // verus!
