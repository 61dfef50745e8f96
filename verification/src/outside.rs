//! Declarations of the outside types that the library handles, and the trusted
//! wrappers around the calls into outside crates.

use vstd::prelude::*;

verus! {

/// `askama::Error`, the error type of template filters.
#[verifier::external_type_specification]
#[verifier::external_body]
pub struct ExAskamaError(askama::Error);

/// `qrcode::types::QrError`, the reason an encoding failed.
#[verifier::external_type_specification]
#[verifier::external_body]
pub struct ExQrError(qrcode::types::QrError);

/// What `qrcode::QrCode::new` makes of the bytes: `None` when no symbol holds them
/// (it picks the smallest symbol at the medium error-correction level), else the
/// modules of the symbol row by row (`true` for a dark module) and the number of
/// modules on a side.
pub uninterp spec fn qr_symbol(data: Seq<u8>) -> Option<(Seq<bool>, usize)>;

/// Calls `qrcode::QrCode::new` on the bytes and hands out the symbol as plain values:
/// its modules from `into_colors` (dark as `true`) and its `width`. Claimed: the
/// outcome is `qr_symbol` of the bytes; a symbol is a full-size one (21 to 177 modules
/// on a side, as `Version::width` gives for versions 1 to 40, the only ones that
/// `encode_auto` picks) with one module per cell of the square (`Canvas::new`).
#[verifier::external_body]
pub(crate) fn qr_code_new(data: &[u8]) -> (r: Result<(Vec<bool>, usize), qrcode::types::QrError>)
    ensures
        r is Ok <==> qr_symbol(data@) is Some,
        r matches Ok(s) ==> qr_symbol(data@) == Some((s.0@, s.1)),
        r matches Ok(s) ==> 21 <= s.1 <= 177 && s.0@.len() == s.1 * s.1,
{
    match qrcode::QrCode::new(data) {
        Ok(code) => {
            let width = code.width();
            let modules: Vec<bool> = code.into_colors().into_iter().map(
                |c| match c {
                    qrcode::Color::Dark => true,
                    qrcode::Color::Light => false,
                },
            ).collect();
            Ok((modules, width))
        },
        Err(e) => Err(e),
    }
}

/// How every SVG document that the `qrcode` SVG renderer builds begins (its
/// `svg::Canvas::new` writes this, then the width).
pub open spec fn qr_svg_start() -> Seq<char> {
    "<?xml version=\"1.0\" standalone=\"yes\"?><svg xmlns=\"http://www.w3.org/2000/svg\" version=\"1.1\" width=\""@
}

/// How every SVG document that the `qrcode` SVG renderer builds ends (its
/// `svg::Canvas::into_image` appends this).
pub open spec fn qr_svg_end() -> Seq<char> {
    "\"/></svg>"@
}

/// The SVG document that the `qrcode` renderer builds for a square of modules
/// (`true` for dark) of `width` modules a side, with a quiet zone of `quiet_zone`
/// modules, after `min_dimensions`, `max_dimensions` and `quiet_zone` were set.
pub uninterp spec fn qr_svg_drawing(
    modules: Seq<bool>,
    width: usize,
    quiet_zone: u32,
    min_width: u32,
    min_height: u32,
    max_width: u32,
    max_height: u32,
    has_quiet_zone: bool,
) -> Seq<char>;

/// Renders a square of modules as SVG: makes a
/// `qrcode::render::Renderer::<svg::Color>::new` over the modules (dark for `true`),
/// calls its `min_dimensions`, `max_dimensions` and `quiet_zone` with the given values,
/// and `build`. `Renderer::new` asserts that the square is full; `min_dimensions`
/// divides by the side in modules (quiet zone included) and adds it to the minimum
/// size, so the side must not be empty and a minimum within 184 of `u32::MAX` (177
/// modules and two quiet zones of 4) would overflow; these inputs are left out.
/// Claimed: the document is `qr_svg_drawing` of the arguments, and begins with
/// `qr_svg_start()` and ends with `qr_svg_end()`, as the source of `svg::Canvas` shows.
#[verifier::external_body]
pub(crate) fn qr_render_svg(
    modules: &[bool],
    width: usize,
    quiet_zone: u32,
    min_width: u32,
    min_height: u32,
    max_width: u32,
    max_height: u32,
    has_quiet_zone: bool,
) -> (svg: String)
    requires
        modules@.len() == width * width,
        1 <= width <= 177,
        quiet_zone <= 4,
        min_width <= u32::MAX - 184,
        min_height <= u32::MAX - 184,
    ensures
        svg@ == qr_svg_drawing(
            modules@,
            width,
            quiet_zone,
            min_width,
            min_height,
            max_width,
            max_height,
            has_quiet_zone,
        ),
        svg@.len() >= qr_svg_start().len() + qr_svg_end().len(),
        svg@.subrange(0, qr_svg_start().len() as int) == qr_svg_start(),
        svg@.subrange(svg@.len() - qr_svg_end().len(), svg@.len() as int) == qr_svg_end(),
{
    let colors: Vec<qrcode::Color> = modules.iter().map(
        |dark| match dark {
            true => qrcode::Color::Dark,
            false => qrcode::Color::Light,
        },
    ).collect();
    qrcode::render::Renderer::<qrcode::render::svg::Color>::new(&colors, width, quiet_zone)
        .min_dimensions(min_width, min_height)
        .max_dimensions(max_width, max_height)
        .quiet_zone(has_quiet_zone)
        .build()
}

} // verus!
