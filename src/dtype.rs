//! The table of element types that cross the bridge, keyed by their tags.
use vstd::prelude::*;

verus! {

/// A numeric element type that a host tensor may carry.
#[derive(Clone, Copy, Debug, PartialEq, Eq, Structural)]
pub enum Dtype {
    Float32,
    Float64,
    Int8,
    Int16,
    Int32,
    Int64,
    Uint8,
    Uint16,
    Uint32,
    Uint64,
}

/// The dtype that a tag names, if the table holds it.
pub open spec fn dtype_of_tag(t: Seq<char>) -> Option<Dtype> {
    if t == "float32"@ {
        Some(Dtype::Float32)
    } else if t == "float64"@ {
        Some(Dtype::Float64)
    } else if t == "int8"@ {
        Some(Dtype::Int8)
    } else if t == "int16"@ {
        Some(Dtype::Int16)
    } else if t == "int32"@ {
        Some(Dtype::Int32)
    } else if t == "int64"@ {
        Some(Dtype::Int64)
    } else if t == "uint8"@ {
        Some(Dtype::Uint8)
    } else if t == "uint16"@ {
        Some(Dtype::Uint16)
    } else if t == "uint32"@ {
        Some(Dtype::Uint32)
    } else if t == "uint64"@ {
        Some(Dtype::Uint64)
    } else {
        None
    }
}

impl Dtype {
    /// The tag under which the table lists this dtype.
    pub open spec fn spec_tag(self) -> Seq<char> {
        match self {
            Dtype::Float32 => "float32"@,
            Dtype::Float64 => "float64"@,
            Dtype::Int8 => "int8"@,
            Dtype::Int16 => "int16"@,
            Dtype::Int32 => "int32"@,
            Dtype::Int64 => "int64"@,
            Dtype::Uint8 => "uint8"@,
            Dtype::Uint16 => "uint16"@,
            Dtype::Uint32 => "uint32"@,
            Dtype::Uint64 => "uint64"@,
        }
    }

    /// The size in bytes of one element.
    pub open spec fn spec_width(self) -> nat {
        match self {
            Dtype::Float32 => 4,
            Dtype::Float64 => 8,
            Dtype::Int8 => 1,
            Dtype::Int16 => 2,
            Dtype::Int32 => 4,
            Dtype::Int64 => 8,
            Dtype::Uint8 => 1,
            Dtype::Uint16 => 2,
            Dtype::Uint32 => 4,
            Dtype::Uint64 => 8,
        }
    }

    pub fn tag(&self) -> (r: &'static str)
        ensures
            r@ == self.spec_tag(),
    {
        match self {
            Dtype::Float32 => "float32",
            Dtype::Float64 => "float64",
            Dtype::Int8 => "int8",
            Dtype::Int16 => "int16",
            Dtype::Int32 => "int32",
            Dtype::Int64 => "int64",
            Dtype::Uint8 => "uint8",
            Dtype::Uint16 => "uint16",
            Dtype::Uint32 => "uint32",
            Dtype::Uint64 => "uint64",
        }
    }

    pub fn width(&self) -> (r: usize)
        ensures
            r == self.spec_width(),
            1 <= r <= 8,
    {
        match self {
            Dtype::Float32 => 4,
            Dtype::Float64 => 8,
            Dtype::Int8 => 1,
            Dtype::Int16 => 2,
            Dtype::Int32 => 4,
            Dtype::Int64 => 8,
            Dtype::Uint8 => 1,
            Dtype::Uint16 => 2,
            Dtype::Uint32 => 4,
            Dtype::Uint64 => 8,
        }
    }
}

/// Whether two texts hold the same characters.
pub fn same_text(a: &str, b: &str) -> (r: bool)
    ensures
        r == (a@ == b@),
{
    let n = a.unicode_len();
    let m = b.unicode_len();
    if n != m {
        return false;
    }
    let mut i: usize = 0;
    while i < n
        invariant
            n == a@.len(),
            m == b@.len(),
            n == m,
            i <= n,
            a@.subrange(0, i as int) == b@.subrange(0, i as int),
        decreases n - i,
    {
        if a.get_char(i) != b.get_char(i) {
            assert(a@[i as int] != b@[i as int]);
            return false;
        }
        assert(a@.subrange(0, i + 1) =~= a@.subrange(0, i as int).push(a@[i as int]));
        assert(b@.subrange(0, i + 1) =~= b@.subrange(0, i as int).push(b@[i as int]));
        i = i + 1;
    }
    assert(a@ =~= a@.subrange(0, n as int));
    assert(b@ =~= b@.subrange(0, n as int));
    true
}

/// Looks a tag up in the dtype table.
pub fn resolve(tag: &str) -> (r: Option<Dtype>)
    ensures
        r == dtype_of_tag(tag@),
{
    if same_text(tag, "float32") {
        Some(Dtype::Float32)
    } else if same_text(tag, "float64") {
        Some(Dtype::Float64)
    } else if same_text(tag, "int8") {
        Some(Dtype::Int8)
    } else if same_text(tag, "int16") {
        Some(Dtype::Int16)
    } else if same_text(tag, "int32") {
        Some(Dtype::Int32)
    } else if same_text(tag, "int64") {
        Some(Dtype::Int64)
    } else if same_text(tag, "uint8") {
        Some(Dtype::Uint8)
    } else if same_text(tag, "uint16") {
        Some(Dtype::Uint16)
    } else if same_text(tag, "uint32") {
        Some(Dtype::Uint32)
    } else if same_text(tag, "uint64") {
        Some(Dtype::Uint64)
    } else {
        None
    }
}

/// Length, first and second-to-last character: tells the tags apart.
spec fn tag_key(t: Seq<char>) -> (nat, char, char) {
    (t.len(), t[0], t[t.len() - 2])
}

/// Every dtype's tag resolves back to that dtype: the table is a bijection
/// between its tags and its element types.
pub proof fn lemma_tag_resolves(d: Dtype)
    ensures
        dtype_of_tag(d.spec_tag()) == Some(d),
{
    reveal_strlit("float32");
    assert(tag_key("float32"@) == (7nat, 'f', '3'));
    reveal_strlit("float64");
    assert(tag_key("float64"@) == (7nat, 'f', '6'));
    reveal_strlit("int8");
    assert(tag_key("int8"@) == (4nat, 'i', 't'));
    reveal_strlit("int16");
    assert(tag_key("int16"@) == (5nat, 'i', '1'));
    reveal_strlit("int32");
    assert(tag_key("int32"@) == (5nat, 'i', '3'));
    reveal_strlit("int64");
    assert(tag_key("int64"@) == (5nat, 'i', '6'));
    reveal_strlit("uint8");
    assert(tag_key("uint8"@) == (5nat, 'u', 't'));
    reveal_strlit("uint16");
    assert(tag_key("uint16"@) == (6nat, 'u', '1'));
    reveal_strlit("uint32");
    assert(tag_key("uint32"@) == (6nat, 'u', '3'));
    reveal_strlit("uint64");
    assert(tag_key("uint64"@) == (6nat, 'u', '6'));
}

} // verus!
