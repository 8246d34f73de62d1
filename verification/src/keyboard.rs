//! The keyboard state of `bevy_input`, as far as this crate reads it.

use vstd::prelude::*;
use bevy_input::keyboard::KeyCode;
use bevy_input::Input;
use std::hash::Hash;

verus! {

/// `bevy_input::Input`, the set-based record of pressed inputs. Opaque here.
#[verifier::external_type_specification]
#[verifier::external_body]
#[verifier::reject_recursive_types(T)]
pub struct ExInput<T: Eq + Hash>(Input<T>);

/// `bevy_input::keyboard::KeyCode`, the key of a keyboard. Opaque here.
#[verifier::external_type_specification]
#[verifier::external_body]
pub struct ExKeyCode(KeyCode);

/// The number of the escape key: the position of `KeyCode::Escape` in the enum.
pub const KEY_ESCAPE: u32 = 36;

/// The keys that count as just pressed in `input`, each by its number in `KeyCode`.
pub uninterp spec fn just_pressed_keys(input: Input<KeyCode>) -> Set<u32>;

/// Calls `Input::just_pressed` with `KeyCode::Escape`. Trusted: the result says
/// whether the escape key is in the input's set of just pressed keys, which is
/// what the method looks up.
#[verifier::external_body]
pub(crate) fn escape_just_pressed(input: &Input<KeyCode>) -> (r: bool)
    ensures
        r == just_pressed_keys(*input).contains(KEY_ESCAPE),
{
    input.just_pressed(KeyCode::Escape)
}

} // verus!
