//! QR codes of payment addresses, drawn as inline SVG.

use vstd::prelude::*;
use vstd::string::*;
use crate::outside::{
    qr_code_new, qr_render_svg, qr_svg_drawing, qr_svg_end, qr_svg_start, qr_symbol,
};
use crate::text::owned;

verus! {

/// The placeholder drawn when the data cannot be encoded.
pub open spec fn qr_error_svg() -> Seq<char> {
    "<svg xmlns='http://www.w3.org/2000/svg' width='200' height='200'><text x='50%' y='50%' text-anchor='middle' fill='#666'>QR Error</text></svg>"@
}

/// `svg` is an SVG document as the QR renderer writes them.
pub open spec fn is_qr_svg(svg: Seq<char>) -> bool {
    &&& svg.len() >= qr_svg_start().len() + qr_svg_end().len()
    &&& svg.subrange(0, qr_svg_start().len() as int) == qr_svg_start()
    &&& svg.subrange(svg.len() - qr_svg_end().len(), svg.len() as int) == qr_svg_end()
}

/// Light modules around a full-size symbol, as `qrcode`'s `QrCode::render` sets them.
pub const QR_QUIET_ZONE: u32 = 4;

/// Smallest side of the drawing, in pixels.
pub const QR_MIN_SIZE: u32 = 200;

/// Largest side of the drawing, in pixels.
pub const QR_MAX_SIZE: u32 = 300;

/// The drawing of a symbol: its modules rendered with the quiet zone, at 200 to 300
/// pixels a side.
pub open spec fn symbol_drawing(modules: Seq<bool>, width: usize) -> Seq<char> {
    qr_svg_drawing(
        modules,
        width,
        QR_QUIET_ZONE,
        QR_MIN_SIZE,
        QR_MIN_SIZE,
        QR_MAX_SIZE,
        QR_MAX_SIZE,
        true,
    )
}

/// The drawing of a QR code of `data`: the drawing of its symbol, or the placeholder
/// when no symbol holds it. It depends on the bytes alone.
pub open spec fn qr_drawing(data: Seq<u8>) -> Seq<char> {
    match qr_symbol(data) {
        Some(symbol) => symbol_drawing(symbol.0, symbol.1),
        None => qr_error_svg(),
    }
}

/// The drawing for the outcome of encoding: the symbol rendered at 200 to 300 pixels
/// a side with a quiet zone, or the placeholder when encoding failed.
pub fn svg_for_code(symbol: Result<(Vec<bool>, usize), qrcode::types::QrError>) -> (svg: String)
    requires
        symbol matches Ok(s) ==> 1 <= s.1 <= 177 && s.0@.len() == s.1 * s.1,
    ensures
        symbol matches Ok(s) ==> svg@ == symbol_drawing(s.0@, s.1) && is_qr_svg(svg@),
        symbol is Err ==> svg@ == qr_error_svg(),
{
    match symbol {
        Ok((modules, width)) => qr_render_svg(
            modules.as_slice(),
            width,
            QR_QUIET_ZONE,
            QR_MIN_SIZE,
            QR_MIN_SIZE,
            QR_MAX_SIZE,
            QR_MAX_SIZE,
            true,
        ),
        Err(_) => owned(
            "<svg xmlns='http://www.w3.org/2000/svg' width='200' height='200'><text x='50%' y='50%' text-anchor='middle' fill='#666'>QR Error</text></svg>",
        ),
    }
}

/// A QR code of `data` as an inline SVG document; the placeholder when `data` does
/// not fit in a QR code. Works offline: nothing leaves the process.
pub fn generate_svg(data: &str) -> (svg: String)
    ensures
        svg@ == qr_drawing(data.spec_bytes()),
        qr_symbol(data.spec_bytes()) matches Some(s) ==> svg@ == qr_svg_drawing(
            s.0,
            s.1,
            4,
            200,
            200,
            300,
            300,
            true,
        ),
        qr_symbol(data.spec_bytes()) is None ==> svg@ == qr_error_svg(),
        qr_symbol(data.spec_bytes()) is Some ==> is_qr_svg(svg@),
{
    svg_for_code(qr_code_new(data.as_bytes()))
}

} // verus!
