use vstd::prelude::*;
use crate::hitboxes::Point;
use crate::characters::Character;

verus! {

/// Animation frames per second.
pub const ANIMATION_FPS: u64 = 12;

/// The animation strip of a character.
#[derive(Clone, Copy, Debug)]
pub struct AnimationSprite {
    pub frames: usize,
    /// The strip is drawn facing right.
    pub facing_right: bool,
}

/// More than one frame period has passed since `last`.
pub open spec fn frame_due(last: u64, now: u64) -> bool {
    (now as int - last as int) * ANIMATION_FPS > 1000
}

/// Advances the character's animation: once a frame period has passed
/// since its last frame change, it moves to the next frame of the strip,
/// wrapping to the first, and the change is stamped `now`. Returns the
/// frame to show.
pub fn animate(sprite: &AnimationSprite, frame: usize, character: &mut Character, now: u64) -> (r:
    usize)
    requires
        frame < sprite.frames,
    ensures
        frame_due(old(character).last_animation_frame, now) ==> r == (frame + 1) % (
        sprite.frames as int) && *final(character) == (Character {
            last_animation_frame: now,
            ..*old(character)
        }),
        !frame_due(old(character).last_animation_frame, now) ==> r == frame && *final(character)
            == *old(character),
{
    let due = if now >= character.last_animation_frame {
        let elapsed = (now - character.last_animation_frame) as u128;
        assert(elapsed * 12 <= 0x1_0000_0000_0000_0000 * 12);
        elapsed * (ANIMATION_FPS as u128) > 1000
    } else {
        false
    };
    if due {
        character.last_animation_frame = now;
        if frame != sprite.frames - 1 {
            proof {
                vstd::arithmetic::div_mod::lemma_small_mod((frame + 1) as nat, sprite.frames as nat);
            }
            frame + 1
        } else {
            proof {
                vstd::arithmetic::div_mod::lemma_mod_self_0(sprite.frames as int);
            }
            0
        }
    } else {
        frame
    }
}

/// Whether the strip must be drawn mirrored for `direction`: when it moves
/// against the way the strip faces. None when it moves neither left nor
/// right, and the sprite keeps its orientation.
pub fn flipped(sprite: &AnimationSprite, direction: &Point) -> (r: Option<bool>)
    ensures
        direction.x == 0 ==> r is None,
        direction.x != 0 ==> r == Some((direction.x > 0) != sprite.facing_right),
{
    if direction.x > 0 {
        Some(!sprite.facing_right)
    } else if direction.x < 0 {
        Some(sprite.facing_right)
    } else {
        None
    }
}

} // verus!
