//! The keyboard mapping: which host keys stand for the sixteen keys of the
//! CHIP-8 keypad, and which ones end the emulator.
use vstd::prelude::*;
use crate::bits::{word_bit, lemma_word_set_bit};

verus! {

/// The host keys that the emulator reacts to; every other key is `Other`.
#[derive(Debug, Clone, Copy, PartialEq, Eq, Structural)]
pub enum HostKey {
    Key1,
    Key2,
    Key3,
    Key4,
    Q,
    W,
    E,
    R,
    A,
    S,
    D,
    F,
    Z,
    X,
    C,
    V,
    Escape,
    Delete,
    Other,
}

/// The host key that stands for keypad key `k`. The keypad's rows
/// `1 2 3 C`, `4 5 6 D`, `7 8 9 E` and `A 0 B F` lie on the host keys
/// `1 2 3 4`, `Q W E R`, `A S D F` and `Z X C V`.
pub open spec fn keypad_key(k: u16) -> HostKey {
    match k {
        0x0 => HostKey::X,
        0x1 => HostKey::Key1,
        0x2 => HostKey::Key2,
        0x3 => HostKey::Key3,
        0x4 => HostKey::Q,
        0x5 => HostKey::W,
        0x6 => HostKey::E,
        0x7 => HostKey::A,
        0x8 => HostKey::S,
        0x9 => HostKey::D,
        0xA => HostKey::Z,
        0xB => HostKey::C,
        0xC => HostKey::Key4,
        0xD => HostKey::R,
        0xE => HostKey::F,
        0xF => HostKey::V,
        _ => HostKey::Other,
    }
}

/// The host key for keypad key `k`.
fn host_key_for(k: u16) -> (key: HostKey)
    requires
        k < 16,
    ensures
        key == keypad_key(k),
{
    match k {
        0x0 => HostKey::X,
        0x1 => HostKey::Key1,
        0x2 => HostKey::Key2,
        0x3 => HostKey::Key3,
        0x4 => HostKey::Q,
        0x5 => HostKey::W,
        0x6 => HostKey::E,
        0x7 => HostKey::A,
        0x8 => HostKey::S,
        0x9 => HostKey::D,
        0xA => HostKey::Z,
        0xB => HostKey::C,
        0xC => HostKey::Key4,
        0xD => HostKey::R,
        0xE => HostKey::F,
        _ => HostKey::V,
    }
}

/// Whether `key` is among the pressed keys.
fn is_pressed(keys_pressed: &[HostKey], key: HostKey) -> (pressed: bool)
    ensures
        pressed == keys_pressed@.contains(key),
{
    let mut j: usize = 0;
    while j < keys_pressed.len()
        invariant
            j <= keys_pressed@.len(),
            forall|m: int| 0 <= m < j ==> keys_pressed@[m] != key,
        decreases keys_pressed@.len() - j,
    {
        if keys_pressed[j] == key {
            assert(keys_pressed@[j as int] == key);
            return true;
        }
        j += 1;
    }
    false
}

/// Sets the keypad state from the host keys that are down: bit `k` of
/// `keys` is set exactly when the host key for keypad key `k` is among them,
/// by the layout `1 2 3 C` / `4 5 6 D` / `7 8 9 E` / `A 0 B F` on the host
/// rows `1 2 3 4` / `Q W E R` / `A S D F` / `Z X C V`.
/// Returns whether Escape or Delete is down, which ends the emulator.
pub fn update_keys(keys_pressed: &[HostKey], keys: &mut u16) -> (quit: bool)
    ensures
        forall|k: u16|
            k < 16 ==> #[trigger] word_bit(*final(keys), k) == keys_pressed@.contains(
                keypad_key(k),
            ),
        quit == (keys_pressed@.contains(HostKey::Escape) || keys_pressed@.contains(HostKey::Delete)),
        word_bit(*final(keys), 0) == keys_pressed@.contains(HostKey::X),
        word_bit(*final(keys), 1) == keys_pressed@.contains(HostKey::Key1),
        word_bit(*final(keys), 2) == keys_pressed@.contains(HostKey::Key2),
        word_bit(*final(keys), 3) == keys_pressed@.contains(HostKey::Key3),
        word_bit(*final(keys), 0xC) == keys_pressed@.contains(HostKey::Key4),
        word_bit(*final(keys), 4) == keys_pressed@.contains(HostKey::Q),
        word_bit(*final(keys), 5) == keys_pressed@.contains(HostKey::W),
        word_bit(*final(keys), 6) == keys_pressed@.contains(HostKey::E),
        word_bit(*final(keys), 0xD) == keys_pressed@.contains(HostKey::R),
        word_bit(*final(keys), 7) == keys_pressed@.contains(HostKey::A),
        word_bit(*final(keys), 8) == keys_pressed@.contains(HostKey::S),
        word_bit(*final(keys), 9) == keys_pressed@.contains(HostKey::D),
        word_bit(*final(keys), 0xE) == keys_pressed@.contains(HostKey::F),
        word_bit(*final(keys), 0xA) == keys_pressed@.contains(HostKey::Z),
        word_bit(*final(keys), 0xB) == keys_pressed@.contains(HostKey::C),
        word_bit(*final(keys), 0xF) == keys_pressed@.contains(HostKey::V),
{
    *keys = 0;
    assert forall|j: u16| j < 16 implies !word_bit(0u16, j) by {
        assert(!word_bit(0u16, j)) by (bit_vector);
    }
    let mut k: u16 = 0;
    while k < 16
        invariant
            k <= 16,
            forall|j: u16|
                j < k ==> #[trigger] word_bit(*keys, j) == keys_pressed@.contains(keypad_key(j)),
            forall|j: u16| k <= j < 16 ==> !#[trigger] word_bit(*keys, j),
        decreases 16 - k,
    {
        let key = host_key_for(k);
        if is_pressed(keys_pressed, key) {
            let ghost before = *keys;
            *keys = *keys | (1u16 << k);
            assert forall|j: u16| j < 16 implies #[trigger] word_bit(*keys, j) == (j == k || word_bit(
                before,
                j,
            )) by {
                lemma_word_set_bit(before, k, j);
            }
        }
        k += 1;
    }

    let quit = is_pressed(keys_pressed, HostKey::Escape) || is_pressed(keys_pressed, HostKey::Delete);

    quit
}

} // verus!
