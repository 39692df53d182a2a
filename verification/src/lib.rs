//! Keyframes of CSS animations: the model of an `@keyframes` rule, its grammar,
//! and the timeline of animation steps derived from it.
//!
//! - `tokenizer` splits text into tokens, which is the work of `cssparser`;
//!   `syntax` finds the rules of a list and the declarations of a block;
//!   `selector` and `percentage` read the selector of a keyframe; `parser`
//!   puts keyframes together, asking a property grammar for the meaning of
//!   each declaration.
//! - `keyframe`, `rule` and `name` hold what was read: keyframes under a lock
//!   of `shared_lock`, each with a block of `declaration_block` made of the
//!   declarations of `properties`.
//! - `animation` derives the steps of an animation from the keyframes of a
//!   rule, and `animation_laws` states what holds of every such animation.
//! - `css` holds serialized CSS.
//!
//! A percentage is held as the bit pattern of a single-precision number:
//! the crate compares such numbers and never computes with them.

pub mod animation;
pub mod animation_laws;
pub mod css;
pub mod declaration_block;
pub mod error;
pub mod keyframe;
pub mod name;
pub mod parser;
pub mod percentage;
pub mod properties;
pub mod rule;
pub mod selector;
pub mod shared_lock;
pub mod syntax;
pub mod tokenizer;
pub mod views;
