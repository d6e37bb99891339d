use vstd::prelude::*;

verus! {

/// One named stylistic color filter from the fixed catalog; `Unspecified`
/// stands for "apply nothing".
#[derive(Clone, Copy, Debug, PartialEq, Eq, Structural)]
pub enum Filter {
    Unspecified,
    Oceanic,
    Islands,
    Marine,
}

/// The sampling kernel a normal resize uses.
#[derive(Clone, Copy, Debug, PartialEq, Eq, Structural)]
pub enum SampleFilter {
    Undefined,
    Nearest,
    Triangle,
    CatmullRom,
    Gaussian,
    Lanczos3,
}

/// The two resize algorithms.
#[derive(Clone, Copy, Debug, PartialEq, Eq, Structural)]
pub enum ResizeType {
    Normal,
    SeamCarve,
}

/// Crop to the pixel rectangle `[x1, x2) x [y1, y2)` of the current image.
#[derive(Clone, Copy, Debug, PartialEq, Eq, Structural)]
pub struct Crop {
    pub x1: u32,
    pub y1: u32,
    pub x2: u32,
    pub y2: u32,
}

/// A per-pixel contrast adjustment, in whole contrast units.
#[derive(Clone, Copy, Debug, PartialEq, Eq, Structural)]
pub struct Contrast {
    pub contrast: i32,
}

/// Resize to `width x height` with the chosen algorithm; the kernel matters
/// only for the normal algorithm.
#[derive(Clone, Copy, Debug, PartialEq, Eq, Structural)]
pub struct Resize {
    pub width: u32,
    pub height: u32,
    pub rtype: ResizeType,
    pub filter: SampleFilter,
}

/// Composite the shared watermark at offset `(x, y)`.
#[derive(Clone, Copy, Debug, PartialEq, Eq, Structural)]
pub struct Watermark {
    pub x: u32,
    pub y: u32,
}

/// The payload of one operation: exactly one variant is active.
#[derive(Clone, Copy, Debug, PartialEq, Eq, Structural)]
pub enum SpecData {
    Crop(Crop),
    Contrast(Contrast),
    Gray,
    Fliph,
    Flipv,
    Filter(Filter),
    Resize(Resize),
    Watermark(Watermark),
}

/// One step of a pipeline; `data: None` is an empty step that does nothing.
#[derive(Clone, Copy, Debug)]
pub struct Spec {
    pub data: Option<SpecData>,
}

/// An ordered pipeline of operations, applied left to right.
#[derive(Clone, Debug)]
pub struct ImageSpec {
    pub specs: Vec<Spec>,
}

/// Structural constraint a single operation must meet: a resize asks for a
/// nonempty target. Everything else is checked at apply time.
pub open spec fn wf_spec(s: Spec) -> bool {
    match s.data {
        Some(SpecData::Resize(r)) => r.width > 0 && r.height > 0,
        _ => true,
    }
}

/// Every operation of the sequence is structurally valid.
pub open spec fn wf_specs(ops: Seq<Spec>) -> bool {
    forall|i: int| 0 <= i < ops.len() ==> wf_spec(#[trigger] ops[i])
}

impl PartialEq for Spec {
    fn eq(&self, other: &Spec) -> (r: bool)
        ensures
            r == (self.data == other.data),
    {
        match (&self.data, &other.data) {
            (None, None) => true,
            (Some(a), Some(b)) => *a == *b,
            _ => false,
        }
    }
}

impl vstd::std_specs::cmp::PartialEqSpecImpl for Spec {
    open spec fn obeys_eq_spec() -> bool {
        true
    }

    open spec fn eq_spec(&self, other: &Spec) -> bool {
        self.data == other.data
    }
}

impl PartialEq for ImageSpec {
    fn eq(&self, other: &ImageSpec) -> (r: bool)
        ensures
            r == (self.specs@ == other.specs@),
    {
        if self.specs.len() != other.specs.len() {
            proof {
                assert(self.specs@ != other.specs@);
            }
            return false;
        }
        let n = self.specs.len();
        let mut i: usize = 0;
        while i < n
            invariant
                n == self.specs.len() == other.specs.len(),
                0 <= i <= n,
                forall|j: int| 0 <= j < i ==> self.specs@[j] == other.specs@[j],
            decreases n - i,
        {
            let a = self.specs[i];
            let b = other.specs[i];
            if !(a == b) {
                proof {
                    assert(self.specs@[i as int] != other.specs@[i as int]);
                }
                return false;
            }
            i += 1;
        }
        proof {
            assert(self.specs@ =~= other.specs@);
        }
        true
    }
}

impl vstd::std_specs::cmp::PartialEqSpecImpl for ImageSpec {
    open spec fn obeys_eq_spec() -> bool {
        true
    }

    open spec fn eq_spec(&self, other: &ImageSpec) -> bool {
        self.specs@ == other.specs@
    }
}

impl ImageSpec {
    /// Wraps an ordered operation list as a pipeline.
    pub fn new(specs: Vec<Spec>) -> (r: Self)
        ensures
            r.specs@ == specs@,
    {
        Self { specs }
    }
}

impl Filter {
    /// The catalog name photon knows a filter by; the unspecified filter has
    /// none.
    pub fn to_str(&self) -> (r: Option<&'static str>)
        ensures
            r is Some <==> *self != Filter::Unspecified,
            *self == Filter::Oceanic ==> r == Some("oceanic"),
            *self == Filter::Islands ==> r == Some("islands"),
            *self == Filter::Marine ==> r == Some("marine"),
    {
        match self {
            Filter::Unspecified => None,
            Filter::Oceanic => Some("oceanic"),
            Filter::Islands => Some("islands"),
            Filter::Marine => Some("marine"),
        }
    }
}

impl Spec {
    /// A content-aware (seam carving) resize step.
    pub fn new_resize_seam_carve(width: u32, height: u32) -> (r: Self)
        requires
            width > 0,
            height > 0,
        ensures
            r.data == Some(SpecData::Resize(Resize {
                width,
                height,
                rtype: ResizeType::SeamCarve,
                filter: SampleFilter::Undefined,
            })),
    {
        Self {
            data: Some(SpecData::Resize(Resize {
                width,
                height,
                rtype: ResizeType::SeamCarve,
                filter: SampleFilter::Undefined,
            })),
        }
    }

    /// A normal resize step with the chosen sampling kernel.
    pub fn new_resize(width: u32, height: u32, filter: SampleFilter) -> (r: Self)
        requires
            width > 0,
            height > 0,
        ensures
            r.data == Some(SpecData::Resize(Resize {
                width,
                height,
                rtype: ResizeType::Normal,
                filter,
            })),
    {
        Self {
            data: Some(SpecData::Resize(Resize {
                width,
                height,
                rtype: ResizeType::Normal,
                filter,
            })),
        }
    }

    /// A named-filter step.
    pub fn new_filter(filter: Filter) -> (r: Self)
        ensures
            r.data == Some(SpecData::Filter(filter)),
    {
        Self { data: Some(SpecData::Filter(filter)) }
    }

    /// A watermark step at offset `(x, y)`.
    pub fn new_watermark(x: u32, y: u32) -> (r: Self)
        ensures
            r.data == Some(SpecData::Watermark(Watermark { x, y })),
    {
        Self { data: Some(SpecData::Watermark(Watermark { x, y })) }
    }
}

} // verus!
