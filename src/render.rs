//! Buffer synthesis: configuration pairs in, a filled pixel buffer out.
use crate::config::{config_of, ConfigMap, KeyValue};
use crate::geometry::{
    channels_of, dimension_of, format_of, geometry_of, height_key, resolve_geometry, width_key,
    ImageGeometry, RenderError,
};
use crate::pattern::{fill_pattern, holds_pattern, lemma_pattern_seq_holds, pattern_seq};
use vstd::prelude::*;

verus! {

/// The geometry of the buffer that a list of pairs asks for, or why there is
/// none: no pairs, a bad dimension, an unknown format, or a size beyond `usize`.
pub open spec fn plan_of(pairs: Seq<KeyValue>) -> Result<ImageGeometry, RenderError> {
    if pairs.len() == 0 {
        Err(RenderError::NullOrEmptyInput)
    } else {
        match geometry_of(config_of(pairs)) {
            Ok(g) => if g.size() > usize::MAX {
                Err(RenderError::AllocationFailure)
            } else {
                Ok(g)
            },
            Err(e) => Err(e),
        }
    }
}

/// The bytes that a list of pairs renders to, where it renders at all.
pub open spec fn render_of(pairs: Seq<KeyValue>) -> Option<Seq<u8>> {
    match plan_of(pairs) {
        Ok(g) => Some(pattern_seq(g.width as nat, g.height as nat, g.channels as nat)),
        Err(_) => None,
    }
}

/// Works out the geometry of the buffer that the pairs ask for; its size is
/// known to fit in `usize`.
pub fn plan_render(pairs: &[KeyValue]) -> (r: Result<ImageGeometry, RenderError>)
    ensures
        r == plan_of(pairs@),
        r matches Ok(g) ==> g.size() <= usize::MAX,
{
    if pairs.len() == 0 {
        return Err(RenderError::NullOrEmptyInput);
    }
    let config = ConfigMap::from_pairs(pairs);
    let geometry = resolve_geometry(&config)?;
    match geometry.total_size() {
        Some(_) => Ok(geometry),
        None => Err(RenderError::AllocationFailure),
    }
}

/// Produces the pixel buffer that the pairs describe, filled with the test
/// pattern, or the reason there is none.
pub fn render_pixels(pairs: &[KeyValue]) -> (r: Result<Vec<u8>, RenderError>)
    ensures
        match plan_of(pairs@) {
            Ok(g) => r matches Ok(v) && v@ == pattern_seq(
                g.width as nat,
                g.height as nat,
                g.channels as nat,
            ) && holds_pattern(v@, g.width as nat, g.height as nat, g.channels as nat),
            Err(e) => r == Err::<Vec<u8>, RenderError>(e),
        },
{
    let g = plan_render(pairs)?;
    let size = match g.total_size() {
        Some(n) => n,
        None => return Err(RenderError::AllocationFailure),
    };
    let mut buf: Vec<u8> = vec![0u8; size];
    fill_pattern(g.width, g.height, g.channels, buf.as_mut_slice());
    Ok(buf)
}

/// The whole synthesis as the host sees it: the filled buffer, or `None` on
/// any failure; `out_len` receives the buffer's length, or zero on failure.
#[allow(non_snake_case)]
pub fn Render(pairs: &[KeyValue], out_len: &mut usize) -> (r: Option<Vec<u8>>)
    ensures
        match r {
            Some(v) => render_of(pairs@) == Some(v@) && *final(out_len) == v@.len(),
            None => render_of(pairs@) is None && *final(out_len) == 0,
        },
{
    match render_pixels(pairs) {
        Ok(v) => {
            *out_len = v.len();
            Some(v)
        },
        Err(_) => {
            *out_len = 0;
            None
        },
    }
}

/// Rendering depends on the configuration alone: two non-empty pair lists
/// that describe the same configuration render to the same bytes, so a call
/// repeated with the same configuration gives the same buffer.
pub proof fn lemma_render_depends_on_config(a: Seq<KeyValue>, b: Seq<KeyValue>)
    requires
        a.len() > 0,
        b.len() > 0,
        config_of(a) == config_of(b),
    ensures
        render_of(a) == render_of(b),
{
}

/// A configuration with a parsable width and height and a supported format
/// (or none, which means `RGBA`) renders to a buffer of `width * height *
/// channels` bytes whose byte at `(y * width + x) * channels + c` is
/// `(x + y + c) mod 256`, provided that size fits in `usize`.
pub proof fn lemma_valid_config_renders_pattern(pairs: Seq<KeyValue>)
    requires
        pairs.len() > 0,
        dimension_of(config_of(pairs), width_key()) is Some,
        dimension_of(config_of(pairs), height_key()) is Some,
        channels_of(format_of(config_of(pairs))) is Some,
        dimension_of(config_of(pairs), width_key())->Some_0 as nat * dimension_of(
            config_of(pairs),
            height_key(),
        )->Some_0 as nat * channels_of(format_of(config_of(pairs)))->Some_0 as nat <= usize::MAX,
    ensures
        ({
            let w = dimension_of(config_of(pairs), width_key())->Some_0 as nat;
            let h = dimension_of(config_of(pairs), height_key())->Some_0 as nat;
            let c = channels_of(format_of(config_of(pairs)))->Some_0 as nat;
            render_of(pairs) matches Some(v) && v.len() == w * h * c && holds_pattern(v, w, h, c)
        }),
{
    let w = dimension_of(config_of(pairs), width_key())->Some_0 as nat;
    let h = dimension_of(config_of(pairs), height_key())->Some_0 as nat;
    let c = channels_of(format_of(config_of(pairs)))->Some_0 as nat;
    lemma_pattern_seq_holds(w, h, c);
}

/// With no pairs at all nothing is rendered.
pub proof fn lemma_empty_input_renders_nothing(pairs: Seq<KeyValue>)
    requires
        pairs.len() == 0,
    ensures
        plan_of(pairs) == Err::<ImageGeometry, RenderError>(RenderError::NullOrEmptyInput),
        render_of(pairs) is None,
{
}

/// A width or height that is absent or does not parse means nothing is
/// rendered, whatever the format.
pub proof fn lemma_bad_dimension_renders_nothing(pairs: Seq<KeyValue>)
    requires
        pairs.len() > 0,
        dimension_of(config_of(pairs), width_key()) is None || dimension_of(
            config_of(pairs),
            height_key(),
        ) is None,
    ensures
        plan_of(pairs) == Err::<ImageGeometry, RenderError>(
            RenderError::MissingOrUnparsableDimension,
        ),
        render_of(pairs) is None,
{
}

/// A format that upper-cases to neither `RGB` nor `RGBA` means nothing is
/// rendered, even with a valid width and height.
pub proof fn lemma_unsupported_format_renders_nothing(pairs: Seq<KeyValue>)
    requires
        pairs.len() > 0,
        dimension_of(config_of(pairs), width_key()) is Some,
        dimension_of(config_of(pairs), height_key()) is Some,
        channels_of(format_of(config_of(pairs))) is None,
    ensures
        plan_of(pairs) == Err::<ImageGeometry, RenderError>(RenderError::UnsupportedFormat),
        render_of(pairs) is None,
{
}

} // verus!
