//! Album-art rendering: which graphics protocol to use, and when to encode a cover anew.
//!
//! The encoded cover is cached: encoding happens again only when the cover box changes size, which
//! keeps the render loop cheap.

use vstd::prelude::*;

use crate::text::{
    ascii_lowercase, contains, has_part, part_stands_somewhere, same, to_lowercase,
};

verus! {

/// A way to draw images in a terminal.
#[derive(Debug, Clone, Copy, PartialEq, Eq, Structural)]
pub enum ProtocolType {
    Halfblocks,
    Sixel,
    Kitty,
    Iterm2,
}

/// The protocol that a name stands for.
pub open spec fn named_protocol(name: Seq<char>) -> Option<ProtocolType> {
    if name == "kitty"@ {
        Some(ProtocolType::Kitty)
    } else if name == "iterm2"@ {
        Some(ProtocolType::Iterm2)
    } else if name == "sixel"@ {
        Some(ProtocolType::Sixel)
    } else if name == "halfblocks"@ {
        Some(ProtocolType::Halfblocks)
    } else {
        None
    }
}

/// The detected protocol, but iTerm2's in place of Kitty's in the Warp terminal.
pub open spec fn corrected_protocol(
    detected: ProtocolType,
    term_program: Option<Seq<char>>,
) -> ProtocolType {
    if detected == ProtocolType::Kitty && term_program is Some && has_part(
        term_program->0,
        "WarpTerminal"@,
    ) {
        ProtocolType::Iterm2
    } else {
        detected
    }
}

/// The protocol to use: the one asked for, in capital or small letters, if it is known, else
/// the detected one as corrected for the terminal.
pub open spec fn chosen_protocol(
    detected: ProtocolType,
    term_program: Option<Seq<char>>,
    wanted: Option<Seq<char>>,
) -> ProtocolType {
    match wanted {
        Some(name) => match named_protocol(ascii_lowercase(name)) {
            Some(protocol) => protocol,
            None => corrected_protocol(detected, term_program),
        },
        None => corrected_protocol(detected, term_program),
    }
}

/// The characters of a text that may be missing.
pub open spec fn chars_in(text: Option<&str>) -> Option<Seq<char>> {
    match text {
        Some(s) => Some(s@),
        None => None,
    }
}

/// The protocol that a name stands for.
fn protocol_named(name: &str) -> (protocol: Option<ProtocolType>)
    ensures
        protocol == named_protocol(name@),
{
    if same(name, "kitty") {
        Some(ProtocolType::Kitty)
    } else if same(name, "iterm2") {
        Some(ProtocolType::Iterm2)
    } else if same(name, "sixel") {
        Some(ProtocolType::Sixel)
    } else if same(name, "halfblocks") {
        Some(ProtocolType::Halfblocks)
    } else {
        None
    }
}

/// The protocol to draw covers with, from the detected one, the terminal's name and the one
/// asked for.
///
/// Warp advertises Kitty's protocol but lacks its unicode placeholders, so Kitty renders as tofu
/// there.
pub fn choose_protocol(
    detected: ProtocolType,
    term_program: Option<&str>,
    wanted: Option<&str>,
) -> (protocol: ProtocolType)
    ensures
        protocol == chosen_protocol(detected, chars_in(term_program), chars_in(wanted)),
{
    let mut protocol = detected;
    if detected == ProtocolType::Kitty {
        if let Some(program) = term_program {
            if contains(program, "WarpTerminal") {
                protocol = ProtocolType::Iterm2;
            }
        }
    }
    // An escape hatch for terminals whose protocol was not detected rightly.
    if let Some(name) = wanted {
        let lower = to_lowercase(name);
        if let Some(forced) = protocol_named(lower.as_str()) {
            protocol = forced;
        }
    }
    protocol
}

/// A known name overrides whatever was detected.
pub proof fn known_name_overrides_detection(
    detected: ProtocolType,
    term_program: Option<Seq<char>>,
    wanted: Seq<char>,
)
    requires
        named_protocol(ascii_lowercase(wanted)) is Some,
    ensures
        chosen_protocol(detected, term_program, Some(wanted)) == named_protocol(
            ascii_lowercase(wanted),
        )->0,
{
}

/// An unknown name changes nothing.
pub proof fn unknown_name_is_ignored(
    detected: ProtocolType,
    term_program: Option<Seq<char>>,
    wanted: Seq<char>,
)
    requires
        named_protocol(ascii_lowercase(wanted)) is None,
    ensures
        chosen_protocol(detected, term_program, Some(wanted)) == chosen_protocol(
            detected,
            term_program,
            None,
        ),
{
}

/// A rectangle of terminal cells.
#[derive(Debug, Clone, Copy, PartialEq, Eq, Structural)]
pub struct Area {
    pub x: u16,
    pub y: u16,
    pub width: u16,
    pub height: u16,
}

impl Area {
    /// Whether the area holds no cell.
    pub open spec fn is_empty(self) -> bool {
        self.width == 0 || self.height == 0
    }

    /// Whether two areas have the same size, wherever they lie.
    pub open spec fn same_size(self, other: Area) -> bool {
        self.width == other.width && self.height == other.height
    }
}

/// A cover image `I`, the terminal's graphics `K`, and the image as last encoded: the area it
/// was encoded for and the encoded image `P`.
pub struct Cover<I, K, P> {
    img: I,
    picker: K,
    cached: Option<(Area, P)>,
}

impl<I, K, P> Cover<I, K, P> {
    /// The decoded image.
    pub closed spec fn img(self) -> I {
        self.img
    }

    /// The terminal's graphics.
    pub closed spec fn picker(self) -> K {
        self.picker
    }

    /// The encoded image and the area it was encoded for.
    pub closed spec fn cached(self) -> Option<(Area, P)> {
        self.cached
    }

    /// Whether the encoded image serves an area: it was encoded for one of that size.
    pub open spec fn serves(self, area: Area) -> bool {
        self.cached() matches Some((cached_area, _)) && cached_area.same_size(area)
    }

    /// Build a cover from an already decoded image.
    pub fn from_image(img: I, picker: K) -> (cover: Self)
        ensures
            cover.img() == img,
            cover.picker() == picker,
            cover.cached() is None,
    {
        Cover { img, picker, cached: None }
    }

    /// Drop the encoded image, so that the next render encodes again.
    pub fn invalidate_cache(&mut self)
        ensures
            final(self).img() == old(self).img(),
            final(self).picker() == old(self).picker(),
            final(self).cached() is None,
            forall|area: Area| !final(self).serves(area),
    {
        self.cached = None;
    }

    /// The encoded image to draw into `area`, encoded anew only when the size changed; `None`
    /// where there is nothing to draw, since the area is empty or the image cannot be encoded.
    ///
    /// `encode` is given the terminal's graphics, the image and the area. It is called at most
    /// once, and not at all for an empty area or one that the encoded image serves: only
    /// otherwise does it have to be callable. Where it fails, the cover stays as it was; where an
    /// image is drawn, the next render at the same size does not encode.
    pub fn render<F: FnOnce(&K, &I, Area) -> Option<P>>(&mut self, area: Area, encode: F) -> (image:
        Option<&P>)
        requires
            !area.is_empty() && !old(self).serves(area) ==> encode.requires(
                (&old(self).picker(), &old(self).img(), area),
            ),
        ensures
            final(self).img() == old(self).img(),
            final(self).picker() == old(self).picker(),
            image is Some ==> final(self).serves(area),
            area.is_empty() ==> image is None && final(self).cached() == old(self).cached(),
            !area.is_empty() && old(self).serves(area) ==> {
                &&& image == Some(&(old(self).cached()->0).1)
                &&& final(self).cached() == old(self).cached()
            },
            !area.is_empty() && !old(self).serves(area) ==> exists|encoded: Option<P>|
                {
                    &&& #[trigger] encode.ensures(
                        (&old(self).picker(), &old(self).img(), area),
                        encoded,
                    )
                    &&& match encoded {
                        Some(p) => image == Some(&p) && final(self).cached() == Some((area, p)),
                        None => image is None && final(self).cached() == old(self).cached(),
                    }
                },
    {
        if area.width == 0 || area.height == 0 {
            return None;
        }
        let needs_encode = match &self.cached {
            Some((cached_area, _)) => cached_area.width != area.width || cached_area.height
                != area.height,
            None => true,
        };
        if needs_encode {
            match encode(&self.picker, &self.img, area) {
                Some(protocol) => {
                    self.cached = Some((area, protocol));
                },
                None => {
                    return None;
                },
            }
        }
        match &self.cached {
            Some((_, protocol)) => Some(protocol),
            None => None,
        }
    }
}

/// Each protocol has one name, and no other text names one.
pub proof fn protocols_have_one_name_each(name: Seq<char>)
    ensures
        named_protocol(name) == Some(ProtocolType::Kitty) <==> name == "kitty"@,
        named_protocol(name) == Some(ProtocolType::Iterm2) <==> name == "iterm2"@,
        named_protocol(name) == Some(ProtocolType::Sixel) <==> name == "sixel"@,
        named_protocol(name) == Some(ProtocolType::Halfblocks) <==> name == "halfblocks"@,
{
    reveal_strlit("kitty");
    reveal_strlit("iterm2");
    reveal_strlit("sixel");
    reveal_strlit("halfblocks");
    assert("kitty"@[0] == 'k' && "iterm2"@[0] == 'i' && "sixel"@[0] == 's' && "halfblocks"@[0]
        == 'h');
}

/// Unless a known protocol is asked for, the detected one is used, but for Kitty's in a terminal
/// whose name holds that of Warp, where iTerm2's is.
pub proof fn only_kitty_in_warp_is_replaced(
    detected: ProtocolType,
    program: Seq<char>,
    before: Seq<char>,
    after: Seq<char>,
)
    ensures
        chosen_protocol(detected, None, None) == detected,
        detected != ProtocolType::Kitty ==> chosen_protocol(detected, Some(program), None)
            == detected,
        program == before + "WarpTerminal"@ + after ==> chosen_protocol(
            ProtocolType::Kitty,
            Some(program),
            None,
        ) == ProtocolType::Iterm2,
        (forall|head: Seq<char>, tail: Seq<char>|
            program != #[trigger] (head + "WarpTerminal"@ + tail)) ==> chosen_protocol(
            ProtocolType::Kitty,
            Some(program),
            None,
        ) == ProtocolType::Kitty,
{
    part_stands_somewhere(program, "WarpTerminal"@);
}

/// A text that may be missing is taken as it is.
pub proof fn given_texts_are_taken_as_they_are(text: &str)
    ensures
        chars_in(Some(text)) == Some(text@),
        chars_in(None) is None,
{
}

/// An encoded image serves exactly the areas of the width and the height that it was encoded for,
/// and an area without one of both is empty.
pub proof fn size_decides_what_an_image_serves<I, K, P>(
    cover: Cover<I, K, P>,
    encoded_for: Area,
    image: P,
    area: Area,
)
    ensures
        cover.cached() == Some((encoded_for, image)) ==> (cover.serves(area) <==> encoded_for.width
            == area.width && encoded_for.height == area.height),
        cover.cached() is None ==> !cover.serves(area),
        area.is_empty() <==> area.width == 0 || area.height == 0,
{
}

} // verus!
