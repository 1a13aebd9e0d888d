//! Keyboard layout: which physical key stands for which of the sixteen keypad keys.
use vstd::prelude::*;

use crate::semantics::KEY_COUNT;

verus! {

/// The physical key for each keypad key, by keypad index:
/// `x 1 2 3 / q w e / a s d / z c / 4 r f v` for 0..F.
pub open spec fn layout() -> Seq<char> {
    seq!['x', '1', '2', '3', 'q', 'w', 'e', 'a', 's', 'd', 'z', 'c', '4', 'r', 'f', 'v']
}

/// The keypad key that `symbol` stands for, if any.
pub fn key_index(symbol: char) -> (r: Option<u8>)
    ensures
        r matches Some(k) ==> k < KEY_COUNT && layout()[k as int] == symbol,
        r is None ==> forall|k: int| 0 <= k < KEY_COUNT ==> layout()[k] != symbol,
{
    let keys: [char; KEY_COUNT] = [
        'x', '1', '2', '3', 'q', 'w', 'e', 'a', 's', 'd', 'z', 'c', '4', 'r', 'f', 'v',
    ];
    assert(keys@ =~= layout());
    let mut k: usize = 0;
    while k < KEY_COUNT
        invariant
            k <= KEY_COUNT,
            keys@ == layout(),
            forall|j: int| 0 <= j < k ==> layout()[j] != symbol,
        decreases KEY_COUNT - k,
    {
        if keys[k] == symbol {
            return Some(k as u8);
        }
        k = k + 1;
    }
    None
}

/// Records a key going down (`pressed`) or up: the keypad key that `symbol`
/// stands for takes that state; any other symbol leaves the keypad as it is.
pub fn apply_key(keypad: &mut [bool; KEY_COUNT], symbol: char, pressed: bool)
    ensures
        (exists|k: int| 0 <= k < KEY_COUNT && layout()[k] == symbol) ==> exists|k: int|
            0 <= k < KEY_COUNT && layout()[k] == symbol && final(keypad)@ == old(keypad)@.update(
                k,
                pressed,
            ),
        (forall|k: int| 0 <= k < KEY_COUNT ==> layout()[k] != symbol) ==> final(keypad)@ == old(
            keypad,
        )@,
{
    match key_index(symbol) {
        Some(k) => {
            keypad[k as usize] = pressed;
        },
        None => {},
    }
}

} // verus!
