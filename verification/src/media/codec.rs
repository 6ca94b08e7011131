//! Codec and hardware-preference names, and the ordered backend candidates
//! that codec selection tries.
use crate::error::Error;
use crate::text::{ascii_lowercase_spec, str_eq, to_ascii_lowercase};
use vstd::prelude::*;

verus! {

/// Codecs the media elements can be configured with.
#[derive(Clone, Copy, Debug, PartialEq, Eq, Structural, Hash)]
pub enum CodecId {
    Jpeg,
    Mjpeg,
    H264,
}

/// Bitstream framing handed to a decoder.
#[derive(Clone, Copy, Debug, PartialEq, Eq, Structural, Hash)]
pub enum BitstreamFormat {
    H264AnnexB,
    JpegInterchange,
}

/// Preferred hardware family for video codecs.
#[derive(Clone, Copy, Debug, PartialEq, Eq, Structural, Hash)]
pub enum HwPreference {
    Auto,
    Rockchip,
    Nvidia,
    Intel,
    Amd,
    Software,
}

/// The codec named by a (lower-cased) name.
pub open spec fn codec_named(name: Seq<char>) -> Option<CodecId> {
    if name == "jpeg"@ {
        Some(CodecId::Jpeg)
    } else if name == "mjpeg"@ {
        Some(CodecId::Mjpeg)
    } else if name == "h264"@ {
        Some(CodecId::H264)
    } else {
        None
    }
}

/// The hardware preference named by a (lower-cased) name or alias.
pub open spec fn hw_named(name: Seq<char>) -> Option<HwPreference> {
    if name == "auto"@ {
        Some(HwPreference::Auto)
    } else if name == "rk"@ || name == "rockchip"@ || name == "rknn"@ || name == "rknpu"@ {
        Some(HwPreference::Rockchip)
    } else if name == "nv"@ || name == "nvidia"@ || name == "cuda"@ {
        Some(HwPreference::Nvidia)
    } else if name == "intel"@ || name == "vaapi"@ {
        Some(HwPreference::Intel)
    } else if name == "amd"@ || name == "amf"@ {
        Some(HwPreference::Amd)
    } else if name == "sw"@ || name == "software"@ || name == "cpu"@ || name == "none"@ {
        Some(HwPreference::Software)
    } else {
        None
    }
}

/// The configured name, or `default` when absent.
pub open spec fn name_or(name: Option<&str>, default: Seq<char>) -> Seq<char> {
    match name {
        Some(s) => s@,
        None => default,
    }
}

/// Parses a codec name case-insensitively; an absent name means `jpeg`.
pub fn codec_from_name(name: Option<&str>) -> (r: Result<CodecId, Error>)
    ensures
        codec_named(ascii_lowercase_spec(name_or(name, "jpeg"@))) matches Some(c) ==> r == Ok::<
            CodecId,
            Error,
        >(c),
        codec_named(ascii_lowercase_spec(name_or(name, "jpeg"@))) is None ==> r matches Err(
            Error::Config(_),
        ),
{
    let raw: &str = match name {
        Some(s) => s,
        None => "jpeg",
    };
    let lowered = to_ascii_lowercase(raw);
    let l = lowered.as_str();
    if str_eq(l, "jpeg") {
        Ok(CodecId::Jpeg)
    } else if str_eq(l, "mjpeg") {
        Ok(CodecId::Mjpeg)
    } else if str_eq(l, "h264") {
        Ok(CodecId::H264)
    } else {
        Err(
            Error::Config(
                "codec must be one of `jpeg`, `mjpeg`, or `h264`, got `".to_owned().concat(
                    l,
                ).concat("`"),
            ),
        )
    }
}

impl HwPreference {
    /// Parses a hardware preference or one of its aliases case-insensitively;
    /// an absent value means `auto`.
    pub fn parse(value: Option<&str>) -> (r: Result<Self, Error>)
        ensures
            hw_named(ascii_lowercase_spec(name_or(value, "auto"@))) matches Some(p) ==> r == Ok::<
                HwPreference,
                Error,
            >(p),
            hw_named(ascii_lowercase_spec(name_or(value, "auto"@))) is None ==> r matches Err(
                Error::Config(_),
            ),
    {
        let raw: &str = match value {
            Some(s) => s,
            None => "auto",
        };
        let lowered = to_ascii_lowercase(raw);
        let l = lowered.as_str();
        if str_eq(l, "auto") {
            Ok(HwPreference::Auto)
        } else if str_eq(l, "rk") || str_eq(l, "rockchip") || str_eq(l, "rknn") || str_eq(
            l,
            "rknpu",
        ) {
            Ok(HwPreference::Rockchip)
        } else if str_eq(l, "nv") || str_eq(l, "nvidia") || str_eq(l, "cuda") {
            Ok(HwPreference::Nvidia)
        } else if str_eq(l, "intel") || str_eq(l, "vaapi") {
            Ok(HwPreference::Intel)
        } else if str_eq(l, "amd") || str_eq(l, "amf") {
            Ok(HwPreference::Amd)
        } else if str_eq(l, "sw") || str_eq(l, "software") || str_eq(l, "cpu") || str_eq(
            l,
            "none",
        ) {
            Ok(HwPreference::Software)
        } else {
            Err(
                Error::Config(
                    "hw must be one of `auto`, `rk`, `rockchip`, `rknn`, `rknpu`, `nv`, `nvidia`, `cuda`, `intel`, `vaapi`, `amd`, `amf`, `sw`, `software`, `cpu`, or `none`, got `".to_owned().concat(
                    l).concat("`"),
                ),
            )
        }
    }
}

/// Hardware backends tried for a video codec, in order.
pub open spec fn hardware_candidates(hw: HwPreference) -> Seq<Seq<char>> {
    match hw {
        HwPreference::Auto => seq!["rkmpp"@, "nvcodec"@, "onevpl"@, "amf"@],
        HwPreference::Rockchip => seq!["rkmpp"@],
        HwPreference::Nvidia => seq!["nvcodec"@],
        HwPreference::Intel => seq!["onevpl"@],
        HwPreference::Amd => seq!["amf"@],
        HwPreference::Software => Seq::empty(),
    }
}

/// Software backends tried for a video codec after the hardware ones.
pub open spec fn software_candidates(encode: bool) -> Seq<Seq<char>> {
    if encode {
        seq!["ffmpeg"@, "x264"@, "openh264"@]
    } else {
        seq!["ffmpeg"@, "openh264"@]
    }
}

/// The ordered backend candidates for a codec: JPEG codecs use the JPEG
/// backends (decoding may also fall back to `zune`); video codecs try the
/// preferred hardware first, then software.
pub open spec fn backend_candidates_spec(codec: CodecId, hw: HwPreference, encode: bool) -> Seq<
    Seq<char>,
> {
    if codec == CodecId::Jpeg || codec == CodecId::Mjpeg {
        if encode {
            seq!["jpeg"@]
        } else {
            seq!["jpeg"@, "zune"@]
        }
    } else {
        hardware_candidates(hw) + software_candidates(encode)
    }
}

/// For a video codec a vendor preference tries that vendor's own backend
/// first (Rockchip: `rkmpp`, Nvidia: `nvcodec`, Intel: `onevpl`, AMD: `amf`)
/// and then the software backends, ending with `openh264`; the software
/// preference tries the software backends alone. The automatic preference
/// tries every vendor's own backend, in the order Rockchip, Nvidia, Intel,
/// AMD, and then the same software backends.
pub proof fn lemma_video_backends_by_vendor(hw: HwPreference, encode: bool)
    ensures
        ({
            let c = backend_candidates_spec(CodecId::H264, hw, encode);
            &&& hw == HwPreference::Rockchip ==> c[0] == "rkmpp"@
            &&& hw == HwPreference::Nvidia ==> c[0] == "nvcodec"@
            &&& hw == HwPreference::Intel ==> c[0] == "onevpl"@
            &&& hw == HwPreference::Amd ==> c[0] == "amf"@
            &&& hw != HwPreference::Auto && hw != HwPreference::Software ==> c == seq![c[0]]
                + backend_candidates_spec(CodecId::H264, HwPreference::Software, encode)
            &&& c.last() == "openh264"@
            &&& c[0] == "ffmpeg"@ <==> hw == HwPreference::Software
        }),
        backend_candidates_spec(CodecId::H264, HwPreference::Software, encode) == if encode {
            seq!["ffmpeg"@, "x264"@, "openh264"@]
        } else {
            seq!["ffmpeg"@, "openh264"@]
        },
        backend_candidates_spec(CodecId::H264, HwPreference::Auto, encode) == seq![
            backend_candidates_spec(CodecId::H264, HwPreference::Rockchip, encode)[0],
            backend_candidates_spec(CodecId::H264, HwPreference::Nvidia, encode)[0],
            backend_candidates_spec(CodecId::H264, HwPreference::Intel, encode)[0],
            backend_candidates_spec(CodecId::H264, HwPreference::Amd, encode)[0],
        ] + backend_candidates_spec(CodecId::H264, HwPreference::Software, encode),
{
    reveal_strlit("ffmpeg");
    reveal_strlit("rkmpp");
    reveal_strlit("nvcodec");
    reveal_strlit("onevpl");
    reveal_strlit("amf");
    reveal_strlit("openh264");
    reveal_strlit("x264");
    let c = backend_candidates_spec(CodecId::H264, hw, encode);
    assert("rkmpp"@[0] != "ffmpeg"@[0] && "nvcodec"@[0] != "ffmpeg"@[0] && "onevpl"@[0] != "ffmpeg"@[0]
        && "amf"@[0] != "ffmpeg"@[0]);
    assert(c.last() == "openh264"@);
    let sw = backend_candidates_spec(CodecId::H264, HwPreference::Software, encode);
    assert(sw =~= software_candidates(encode));
    if hw != HwPreference::Auto && hw != HwPreference::Software {
        assert(c =~= seq![c[0]] + sw);
    }
    assert(backend_candidates_spec(CodecId::H264, HwPreference::Auto, encode) =~= seq![
        backend_candidates_spec(CodecId::H264, HwPreference::Rockchip, encode)[0],
        backend_candidates_spec(CodecId::H264, HwPreference::Nvidia, encode)[0],
        backend_candidates_spec(CodecId::H264, HwPreference::Intel, encode)[0],
        backend_candidates_spec(CodecId::H264, HwPreference::Amd, encode)[0],
    ] + sw);
}

/// JPEG and MJPEG ignore the hardware preference and use the JPEG backend,
/// with `zune` as a decoding fallback; the two codecs choose alike.
pub proof fn lemma_jpeg_backends(hw: HwPreference, hw2: HwPreference, encode: bool)
    ensures
        backend_candidates_spec(CodecId::Jpeg, hw, encode) == backend_candidates_spec(CodecId::Jpeg, hw2, encode),
        backend_candidates_spec(CodecId::Mjpeg, hw, encode) == backend_candidates_spec(CodecId::Jpeg, hw, encode),
        backend_candidates_spec(CodecId::Jpeg, hw, encode)[0] == "jpeg"@,
        backend_candidates_spec(CodecId::Jpeg, hw, true).len() == 1,
        backend_candidates_spec(CodecId::Jpeg, hw, false) == seq!["jpeg"@, "zune"@],
{
}

fn push_name(v: &mut Vec<&'static str>, name: &'static str)
    ensures
        final(v)@ == old(v)@.push(name),
{
    v.push(name);
}

/// The ordered backend candidates that codec selection tries.
pub fn backend_candidates(codec: CodecId, hw: HwPreference, encode: bool) -> (r: Vec<&'static str>)
    ensures
        r@.map_values(|s: &str| s@) == backend_candidates_spec(codec, hw, encode),
{
    let mut out: Vec<&'static str> = Vec::new();
    if codec == CodecId::Jpeg || codec == CodecId::Mjpeg {
        push_name(&mut out, "jpeg");
        if !encode {
            push_name(&mut out, "zune");
        }
        proof {
            reveal_strlit("jpeg");
            reveal_strlit("zune");
        }
        assert(out@.map_values(|s: &str| s@) =~= backend_candidates_spec(codec, hw, encode));
        return out;
    }
    match hw {
        HwPreference::Auto => {
            push_name(&mut out, "rkmpp");
            push_name(&mut out, "nvcodec");
            push_name(&mut out, "onevpl");
            push_name(&mut out, "amf");
        },
        HwPreference::Rockchip => push_name(&mut out, "rkmpp"),
        HwPreference::Nvidia => push_name(&mut out, "nvcodec"),
        HwPreference::Intel => push_name(&mut out, "onevpl"),
        HwPreference::Amd => push_name(&mut out, "amf"),
        HwPreference::Software => {},
    }
    push_name(&mut out, "ffmpeg");
    if encode {
        push_name(&mut out, "x264");
    }
    push_name(&mut out, "openh264");
    assert(out@.map_values(|s: &str| s@) =~= backend_candidates_spec(codec, hw, encode));
    out
}

/// The bitstream framing that decoding a codec expects.
pub fn bitstream_format(codec: CodecId) -> (r: BitstreamFormat)
    ensures
        r == (if codec == CodecId::H264 {
            BitstreamFormat::H264AnnexB
        } else {
            BitstreamFormat::JpegInterchange
        }),
{
    match codec {
        CodecId::H264 => BitstreamFormat::H264AnnexB,
        CodecId::Jpeg | CodecId::Mjpeg => BitstreamFormat::JpegInterchange,
    }
}

/// The `Debug` spelling of a codec.
pub open spec fn codec_text(codec: CodecId) -> Seq<char> {
    match codec {
        CodecId::Jpeg => "Jpeg"@,
        CodecId::Mjpeg => "Mjpeg"@,
        CodecId::H264 => "H264"@,
    }
}

/// The `Debug` spelling of a hardware preference.
pub open spec fn hw_text(hw: HwPreference) -> Seq<char> {
    match hw {
        HwPreference::Auto => "Auto"@,
        HwPreference::Rockchip => "Rockchip"@,
        HwPreference::Nvidia => "Nvidia"@,
        HwPreference::Intel => "Intel"@,
        HwPreference::Amd => "Amd"@,
        HwPreference::Software => "Software"@,
    }
}

fn codec_name(codec: CodecId) -> (r: &'static str)
    ensures
        r@ == codec_text(codec),
{
    match codec {
        CodecId::Jpeg => "Jpeg",
        CodecId::Mjpeg => "Mjpeg",
        CodecId::H264 => "H264",
    }
}

fn hw_name(hw: HwPreference) -> (r: &'static str)
    ensures
        r@ == hw_text(hw),
{
    match hw {
        HwPreference::Auto => "Auto",
        HwPreference::Rockchip => "Rockchip",
        HwPreference::Nvidia => "Nvidia",
        HwPreference::Intel => "Intel",
        HwPreference::Amd => "Amd",
        HwPreference::Software => "Software",
    }
}

/// `parts` joined with `sep` between consecutive parts.
pub open spec fn joined(parts: Seq<Seq<char>>, sep: Seq<char>) -> Seq<char>
    decreases parts.len(),
{
    if parts.len() == 0 {
        Seq::empty()
    } else if parts.len() == 1 {
        parts[0]
    } else {
        joined(parts.drop_last(), sep) + sep + parts.last()
    }
}

/// The cargo feature that provides a backend.
pub open spec fn feature_for(candidate: Seq<char>) -> Seq<char> {
    if candidate == "jpeg"@ || candidate == "zune"@ {
        "`avcodec` (jpeg/zune)"@
    } else {
        "`codec-"@ + candidate + "`"@
    }
}

/// The message reported when no backend could be created.
pub open spec fn no_backend_text(codec: CodecId, hw: HwPreference, candidates: Seq<Seq<char>>, attempts: Seq<Seq<char>>) -> Seq<char> {
    "no backend available for codec "@ + codec_text(codec) + " with hardware preference "@ + hw_text(hw)
        + "; attempted ["@ + joined(attempts, "; "@) + "]; enable one of cargo features: "@
        + joined(candidates.map_values(|c: Seq<char>| feature_for(c)), ", "@)
}

fn feature_exec(candidate: &str) -> (r: String)
    ensures
        r@ == feature_for(candidate@),
{
    if str_eq(candidate, "jpeg") || str_eq(candidate, "zune") {
        "`avcodec` (jpeg/zune)".to_string()
    } else {
        "`codec-".to_owned().concat(candidate).concat("`")
    }
}

/// Builds the "no backend" error after every candidate failed to open.
pub fn no_backend_error(codec: CodecId, hw: HwPreference, candidates: &[&str], attempts: &[String]) -> (r: Error)
    ensures
        r matches Error::Media(m) && m@ == no_backend_text(
            codec,
            hw,
            candidates@.map_values(|c: &str| c@),
            attempts@.map_values(|a: String| a@),
        ),
{
    let ghost tried = attempts@.map_values(|a: String| a@);
    let mut attempted = String::new();
    let mut i: usize = 0;
    while i < attempts.len()
        invariant
            i <= attempts@.len(),
            tried == attempts@.map_values(|a: String| a@),
            attempted@ == joined(tried.take(i as int), "; "@),
        decreases attempts@.len() - i,
    {
        if i > 0 {
            attempted = attempted.concat("; ");
        }
        attempted = attempted.concat(attempts[i].as_str());
        proof {
            assert(tried.take(i + 1).drop_last() =~= tried.take(i as int));
            if i == 0 {
                assert(tried.take(1)[0] == tried[0]);
            }
        }
        i += 1;
    }
    assert(tried.take(attempts@.len() as int) =~= tried);
    let ghost features = candidates@.map_values(|c: &str| c@).map_values(|c: Seq<char>| feature_for(c));
    let mut enabled = String::new();
    let mut k: usize = 0;
    while k < candidates.len()
        invariant
            k <= candidates@.len(),
            features == candidates@.map_values(|c: &str| c@).map_values(|c: Seq<char>| feature_for(c)),
            enabled@ == joined(features.take(k as int), ", "@),
        decreases candidates@.len() - k,
    {
        if k > 0 {
            enabled = enabled.concat(", ");
        }
        let feature = feature_exec(candidates[k]);
        enabled = enabled.concat(feature.as_str());
        proof {
            assert(features.take(k + 1).drop_last() =~= features.take(k as int));
            if k == 0 {
                assert(features.take(1)[0] == features[0]);
            }
        }
        k += 1;
    }
    assert(features.take(candidates@.len() as int) =~= features);
    Error::Media(
        "no backend available for codec ".to_owned().concat(codec_name(codec)).concat(
            " with hardware preference ",
        ).concat(hw_name(hw)).concat("; attempted [").concat(attempted.as_str()).concat(
            "]; enable one of cargo features: ",
        ).concat(enabled.as_str()),
    )
}

} // verus!
