pub mod bezier;
pub mod canvas;
pub mod color;
pub mod generate;
pub mod gradient;
pub mod line;
pub mod rng;
pub mod round;
pub mod text;

pub use canvas::Canvas;
pub use color::Color;
pub use generate::CaptchaError;

use crate::color::all_opaque;
use crate::generate::{code_with, generate_with, generated_canvas, is_code_char, noise_draws_ok};
use crate::rng::OsRandom;
use crate::text::font_parses;
use vstd::prelude::*;

verus! {

/// Generates one captcha from operating-system randomness: a fresh
/// five-character code and the 100 by 50 canvas that paints, in order, the
/// cyan vertical gradient, the code at (16, 8) with 32-pixel glyphs in one
/// random opaque color, and the random noise on top. Fails exactly when the
/// font bytes do not parse as a TrueType font.
pub fn generator(font: &[u8]) -> (r: Result<(Canvas, String), CaptchaError>)
    ensures
        r is Err <==> !font_parses(font@),
        r is Err ==> r == Err::<(Canvas, String), CaptchaError>(CaptchaError::InvalidFont),
        r is Ok ==> r->Ok_0.0.wf(),
        r is Ok ==> r->Ok_0.0.width == 100 && r->Ok_0.0.height == 50,
        r is Ok ==> all_opaque(r->Ok_0.0@),
        r is Ok ==> r->Ok_0.1@.len() == 5,
        r is Ok ==> forall|i: int| 0 <= i < 5 ==> is_code_char(#[trigger] r->Ok_0.1@[i]),
        r is Ok ==> exists|tc: Color, d: Seq<int>|
            tc.a == 255 && noise_draws_ok(d, 100, 50) && r->Ok_0.0@ == #[trigger] generated_canvas(
                font@,
                r->Ok_0.1@,
                tc,
                d,
            ),
{
    let mut rng = OsRandom::new();
    generate_with(&mut rng, font)
}

/// Samples a fresh code from operating-system randomness: exactly five
/// characters, each from the alphabet `A-Z`, `a-z`, `0-9`.
pub fn code() -> (code: String)
    ensures
        code@.len() == 5,
        forall|i: int| 0 <= i < 5 ==> is_code_char(#[trigger] code@[i]),
{
    let mut rng = OsRandom::new();
    code_with(&mut rng)
}

} // verus!

