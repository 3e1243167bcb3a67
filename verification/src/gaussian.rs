//! The raw point, as a PLY vertex describes it.

use vstd::prelude::*;
use vstd::string::is_ascii;
use vstd::string::is_ascii_spec_bytes;

verus! {

/// One Gaussian as read from a PLY vertex, before any activation is applied.
///
/// Every field holds the IEEE-754 single-precision bit pattern of the value
/// in the document; nothing is interpreted, so NaN and infinities pass
/// through unchanged. A field that the document does not give stays zero.
#[derive(Debug, Clone, Copy, PartialEq, Eq, Structural)]
pub struct PlyGaussian {
    /// Position.
    pub x: u32,
    pub y: u32,
    pub z: u32,
    /// Zeroth-order spherical-harmonic colour coefficients.
    pub f_dc_0: u32,
    pub f_dc_1: u32,
    pub f_dc_2: u32,
    /// Opacity logit.
    pub opacity: u32,
    /// Log-scale.
    pub scale_0: u32,
    pub scale_1: u32,
    pub scale_2: u32,
    /// Rotation quaternion, not normalised.
    pub rot_0: u32,
    pub rot_1: u32,
    pub rot_2: u32,
    pub rot_3: u32,
}

/// The value of one property of a PLY element, as far as a Gaussian reads
/// it: a single-precision float by its bit pattern, or anything else.
#[derive(Debug, Clone, Copy, PartialEq, Eq, Structural)]
pub enum PropertyValue {
    /// A `float` property, by bit pattern.
    Float(u32),
    /// A property of any other scalar or list type.
    Other,
}

/// The Gaussian with every field zero.
pub open spec fn zero_gaussian() -> PlyGaussian {
    PlyGaussian {
        x: 0,
        y: 0,
        z: 0,
        f_dc_0: 0,
        f_dc_1: 0,
        f_dc_2: 0,
        opacity: 0,
        scale_0: 0,
        scale_1: 0,
        scale_2: 0,
        rot_0: 0,
        rot_1: 0,
        rot_2: 0,
        rot_3: 0,
    }
}

/// `g` with the field called `key` set to `bits`; unchanged when no field
/// has that name.
pub open spec fn with_field(g: PlyGaussian, key: Seq<char>, bits: u32) -> PlyGaussian {
    if key == "x"@ {
        PlyGaussian { x: bits, ..g }
    } else if key == "y"@ {
        PlyGaussian { y: bits, ..g }
    } else if key == "z"@ {
        PlyGaussian { z: bits, ..g }
    } else if key == "f_dc_0"@ {
        PlyGaussian { f_dc_0: bits, ..g }
    } else if key == "f_dc_1"@ {
        PlyGaussian { f_dc_1: bits, ..g }
    } else if key == "f_dc_2"@ {
        PlyGaussian { f_dc_2: bits, ..g }
    } else if key == "opacity"@ {
        PlyGaussian { opacity: bits, ..g }
    } else if key == "scale_0"@ {
        PlyGaussian { scale_0: bits, ..g }
    } else if key == "scale_1"@ {
        PlyGaussian { scale_1: bits, ..g }
    } else if key == "scale_2"@ {
        PlyGaussian { scale_2: bits, ..g }
    } else if key == "rot_0"@ {
        PlyGaussian { rot_0: bits, ..g }
    } else if key == "rot_1"@ {
        PlyGaussian { rot_1: bits, ..g }
    } else if key == "rot_2"@ {
        PlyGaussian { rot_2: bits, ..g }
    } else if key == "rot_3"@ {
        PlyGaussian { rot_3: bits, ..g }
    } else {
        g
    }
}

/// `g` after it is told of one property: a float under a known name sets
/// that field, anything else leaves `g` as it is.
pub open spec fn with_property(g: PlyGaussian, key: Seq<char>, value: PropertyValue) -> PlyGaussian {
    match value {
        PropertyValue::Float(bits) => with_field(g, key, bits),
        PropertyValue::Other => g,
    }
}

/// A property list as plain values: names by their characters.
pub open spec fn property_list(props: Seq<(String, PropertyValue)>) -> Seq<
    (Seq<char>, PropertyValue),
> {
    Seq::new(props.len(), |i: int| (props[i].0@, props[i].1))
}

/// The Gaussian that a property list describes: the zero Gaussian told of
/// each property in turn.
pub open spec fn gaussian_of(props: Seq<(Seq<char>, PropertyValue)>) -> PlyGaussian
    decreases props.len(),
{
    if props.len() == 0 {
        zero_gaussian()
    } else {
        with_property(gaussian_of(props.drop_last()), props.last().0, props.last().1)
    }
}

/// Whether `key` is the ASCII name `name`.
pub(crate) fn name_is(key: &str, name: &str) -> (r: bool)
    requires
        is_ascii(name),
    ensures
        r == (key@ == name@),
{
    if !key.is_ascii() {
        return false;
    }
    let kb = key.as_bytes();
    let nb = name.as_bytes();
    proof {
        is_ascii_spec_bytes(key);
        is_ascii_spec_bytes(name);
    }
    if kb.len() != nb.len() {
        return false;
    }
    let mut i: usize = 0;
    while i < kb.len()
        invariant
            i <= kb.len(),
            kb@.len() == key@.len(),
            nb@.len() == name@.len(),
            kb@.len() == nb@.len(),
            is_ascii(key),
            is_ascii(name),
            forall|j: int| 0 <= j < kb@.len() ==> kb@[j] == key@[j] as u8,
            forall|j: int| 0 <= j < nb@.len() ==> nb@[j] == name@[j] as u8,
            forall|j: int| 0 <= j < i ==> key@[j] == name@[j],
        decreases kb.len() - i,
    {
        if kb[i] != nb[i] {
            return false;
        }
        i += 1;
    }
    assert(key@ =~= name@);
    true
}

impl PlyGaussian {
    /// A Gaussian with every field zero.
    pub fn new() -> (g: PlyGaussian)
        ensures
            g == zero_gaussian(),
    {
        PlyGaussian {
            x: 0,
            y: 0,
            z: 0,
            f_dc_0: 0,
            f_dc_1: 0,
            f_dc_2: 0,
            opacity: 0,
            scale_0: 0,
            scale_1: 0,
            scale_2: 0,
            rot_0: 0,
            rot_1: 0,
            rot_2: 0,
            rot_3: 0,
        }
    }

    /// Sets the field called `key` to `bits`; an unknown name changes
    /// nothing.
    fn set_field(&mut self, key: &str, bits: u32)
        ensures
            *final(self) == with_field(*old(self), key@, bits),
    {
        proof {
            reveal_strlit("x");
            reveal_strlit("y");
            reveal_strlit("z");
            reveal_strlit("f_dc_0");
            reveal_strlit("f_dc_1");
            reveal_strlit("f_dc_2");
            reveal_strlit("opacity");
            reveal_strlit("scale_0");
            reveal_strlit("scale_1");
            reveal_strlit("scale_2");
            reveal_strlit("rot_0");
            reveal_strlit("rot_1");
            reveal_strlit("rot_2");
            reveal_strlit("rot_3");
        }
        if name_is(key, "x") {
            self.x = bits;
        } else if name_is(key, "y") {
            self.y = bits;
        } else if name_is(key, "z") {
            self.z = bits;
        } else if name_is(key, "f_dc_0") {
            self.f_dc_0 = bits;
        } else if name_is(key, "f_dc_1") {
            self.f_dc_1 = bits;
        } else if name_is(key, "f_dc_2") {
            self.f_dc_2 = bits;
        } else if name_is(key, "opacity") {
            self.opacity = bits;
        } else if name_is(key, "scale_0") {
            self.scale_0 = bits;
        } else if name_is(key, "scale_1") {
            self.scale_1 = bits;
        } else if name_is(key, "scale_2") {
            self.scale_2 = bits;
        } else if name_is(key, "rot_0") {
            self.rot_0 = bits;
        } else if name_is(key, "rot_1") {
            self.rot_1 = bits;
        } else if name_is(key, "rot_2") {
            self.rot_2 = bits;
        } else if name_is(key, "rot_3") {
            self.rot_3 = bits;
        }
    }

    /// Takes note of one property of the vertex.
    ///
    /// A float property under one of the fourteen recognised names sets the
    /// field of that name. A property under any other name, or of any other
    /// type, is ignored.
    pub fn set_property(&mut self, key: String, property: PropertyValue)
        ensures
            *final(self) == with_property(*old(self), key@, property),
    {
        match property {
            PropertyValue::Float(bits) => self.set_field(key.as_str(), bits),
            PropertyValue::Other => {},
        }
    }

    /// The Gaussian that a vertex's property list describes.
    ///
    /// Properties are taken in order, so of two properties that name the
    /// same field the later one stands. Fields that no property names are
    /// zero.
    pub fn from_properties(props: &Vec<(String, PropertyValue)>) -> (g: PlyGaussian)
        ensures
            g == gaussian_of(property_list(props@)),
    {
        let mut g = PlyGaussian::new();
        let mut i: usize = 0;
        assert(property_list(props@).take(0) =~= Seq::empty());
        while i < props.len()
            invariant
                i <= props.len(),
                g == gaussian_of(property_list(props@).take(i as int)),
            decreases props.len() - i,
        {
            let ghost before = property_list(props@).take(i as int);
            let ghost after = property_list(props@).take(i + 1);
            match props[i].1 {
                PropertyValue::Float(bits) => g.set_field(props[i].0.as_str(), bits),
                PropertyValue::Other => {},
            }
            assert(after.drop_last() =~= before);
            assert(after.last() == (props@[i as int].0@, props@[i as int].1));
            i += 1;
        }
        assert(property_list(props@).take(i as int) =~= property_list(props@));
        g
    }
}

impl Default for PlyGaussian {
    fn default() -> (g: PlyGaussian)
        ensures
            g == zero_gaussian(),
    {
        PlyGaussian::new()
    }
}

} // verus!
