//! Laws that relate the cursor's operations, stated over its abstract state.
use vstd::prelude::*;
use vstd::utf8::encode_utf8;

use crate::cursor::CursorView;
use crate::utf8::{char_utf8_len, lemma_encode_concat, lemma_take_one_more, utf8_len};

verus! {

/// Consuming one code point moves the byte offset by exactly that code
/// point's UTF-8 width, and by nothing at the end of the text; the code point
/// consumed is the one a peek shows.
pub proof fn lemma_bump_moves_by_width(v: CursorView)
    requires
        v.wf(),
    ensures
        v.advanced().wf(),
        v.advanced().byte_pos() == v.byte_pos() + match v.ahead(0) {
            Some(c) => char_utf8_len(c),
            None => 0,
        },
        v.ahead(0) is None ==> v.advanced() == v,
{
    if v.index < v.text.len() {
        lemma_take_one_more(v.text, v.index as int);
    }
}

/// The second code point of lookahead is the first one after one consumption.
pub proof fn lemma_second_is_next_after_bump(v: CursorView)
    requires
        v.wf(),
    ensures
        v.advanced().ahead(0) == v.ahead(1),
{
}

/// Consuming two code points at once gives the pair and the byte offset that
/// two single consumptions give, also when only one code point is left.
pub proof fn lemma_bump_two_is_two_bumps(v: CursorView)
    requires
        v.wf(),
    ensures
        (v.ahead(0), v.advanced().ahead(0)) == (v.ahead(0), v.ahead(1)),
        v.advanced().advanced().byte_pos() == v.byte_pos() + match v.ahead(0) {
            Some(c) => char_utf8_len(c),
            None => 0,
        } + match v.ahead(1) {
            Some(c) => char_utf8_len(c),
            None => 0,
        },
        v.index + 1 == v.text.len() ==> v.ahead(0) is Some && v.ahead(1) is None
            && v.advanced().advanced().byte_pos() == v.byte_pos() + char_utf8_len(
            v.ahead(0)->0,
        ),
{
    lemma_bump_moves_by_width(v);
    lemma_bump_moves_by_width(v.advanced());
}

/// Consuming until nothing is left takes one step per remaining code point,
/// ends with the byte offset at the byte length of the whole text, and any
/// further consumption returns nothing and changes nothing.
pub proof fn lemma_exhaust(v: CursorView)
    requires
        v.wf(),
    ensures
        forall|k: nat|
            k < v.text.len() - v.index ==> (#[trigger] v.advanced_times(k)).ahead(0) is Some,
        v.advanced_times((v.text.len() - v.index) as nat).ahead(0) is None,
        v.advanced_times((v.text.len() - v.index) as nat).byte_pos() == utf8_len(v.text),
        v.advanced_times((v.text.len() - v.index) as nat).advanced() == v.advanced_times(
            (v.text.len() - v.index) as nat,
        ),
{
    lemma_advanced_times(v, (v.text.len() - v.index) as nat);
    assert forall|k: nat| k < v.text.len() - v.index implies (#[trigger] v.advanced_times(
        k,
    )).ahead(0) is Some by {
        lemma_advanced_times(v, k);
    }
    assert(v.text.take(v.text.len() as int) =~= v.text);
}

/// While code points remain, each consumption moves the position by one.
proof fn lemma_advanced_times(v: CursorView, n: nat)
    requires
        v.wf(),
        v.index + n <= v.text.len(),
    ensures
        v.advanced_times(n) == (CursorView { text: v.text, index: v.index + n }),
    decreases n,
{
    if n > 0 {
        lemma_advanced_times(v, (n - 1) as nat);
    }
}

/// The bytes from the byte offset onwards are exactly the encoding of the
/// code points not yet consumed.
pub proof fn lemma_rest_at_byte_pos(v: CursorView)
    requires
        v.wf(),
    ensures
        encode_utf8(v.text).skip(v.byte_pos() as int) == encode_utf8(v.rest()),
{
    let t = v.text.take(v.index as int);
    lemma_encode_concat(t, v.rest());
    assert(t + v.rest() =~= v.text);
    assert(encode_utf8(v.text).skip(v.byte_pos() as int) =~= encode_utf8(v.rest()));
}

}
