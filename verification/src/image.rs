//! An image pipeline: an ordered list of filters, each a value of its own
//! type behind the `Filter` trait, applied one after another to an image.
use vstd::prelude::*;
use crate::boxed::push_boxed;
use crate::text::push_str;
use crate::sys::write_stdout_line;

verus! {

/// Raw image data.
#[derive(Debug, Clone)]
pub struct Image {
    pub width: u32,
    pub height: u32,
    pub pixels: Vec<u8>,
}

impl Image {
    pub fn new(width: u32, height: u32, pixels: Vec<u8>) -> (r: Self)
        ensures
            r.width == width,
            r.height == height,
            r.pixels == pixels,
    {
        Image { width, height, pixels }
    }
}

/// Every image filter implements this trait.
pub trait Filter {
    /// A human-readable name, used when the pipeline reports its progress.
    fn name(&self) -> &str;

    /// Whether applying the filter may turn `before` into `after`. A filter
    /// that does not say may do anything.
    open spec fn may_apply(&self, before: Image, after: Image) -> bool {
        true
    }

    /// Applies the filter to `image` in place.
    fn apply(&self, image: &mut Image)
        ensures
            self.may_apply(*old(image), *final(image));
}

/// Converts to grayscale. The conversion itself is left to a later version:
/// the image is handed back as it was.
pub struct Grayscale;

impl Filter for Grayscale {
    fn name(&self) -> (r: &str)
        ensures
            r@ == "grayscale"@,
    {
        "grayscale"
    }

    open spec fn may_apply(&self, before: Image, after: Image) -> bool {
        after == before
    }

    fn apply(&self, image: &mut Image)
        ensures
            *final(image) == *old(image),
    {
    }
}

/// `imgs` holds the image before each filter and after the last: each
/// filter may turn one into the next.
pub open spec fn applied_in_turn(filters: Seq<Box<dyn Filter>>, imgs: Seq<Image>) -> bool {
    &&& imgs.len() == filters.len() + 1
    &&& forall|q: int| 0 <= q < filters.len() ==> #[trigger] filters[q].may_apply(imgs[q], imgs[q + 1])
}

/// An ordered sequence of filters.
pub struct Pipeline {
    filters: Vec<Box<dyn Filter>>,
}

impl Pipeline {
    /// The filters, in the order in which they run.
    pub closed spec fn filters(&self) -> Seq<Box<dyn Filter>> {
        self.filters@
    }

    pub fn new() -> (r: Self)
        ensures
            r.filters().len() == 0,
    {
        Pipeline { filters: Vec::new() }
    }

    /// Appends a filter; calls can be chained.
    pub fn add<F: Filter + 'static>(self, filter: F) -> (r: Self)
        ensures
            r.filters().len() == self.filters().len() + 1,
            forall|i: int| 0 <= i < self.filters().len() ==> #[trigger] r.filters()[i] == self.filters()[i],
    {
        let mut v = self.filters;
        let b: Box<dyn Filter> = Box::new(filter);
        push_boxed(&mut v, b);
        Pipeline { filters: v }
    }

    /// Runs every filter in order against `image`, announcing each by name on
    /// standard output: each filter works on what the one before left.
    pub fn execute(&self, image: &mut Image)
        ensures
            self.filters().len() == 0 ==> *final(image) == *old(image),
            exists|imgs: Seq<Image>| #[trigger] applied_in_turn(self.filters(), imgs) && imgs[0] == *old(image)
                && imgs.last() == *final(image),
    {
        let ghost mut imgs: Seq<Image> = seq![*image];
        let mut i: usize = 0;
        while i < self.filters.len()
            invariant
                0 <= i <= self.filters.len(),
                self.filters@.len() == 0 ==> *image == *old(image),
                imgs.len() == i + 1,
                imgs[0] == *old(image),
                imgs[i as int] == *image,
                forall|q: int| 0 <= q < i ==> #[trigger] self.filters@[q].may_apply(imgs[q], imgs[q + 1]),
            decreases self.filters.len() - i,
        {
            let mut line = String::new();
            push_str(&mut line, "Applying filter: ");
            push_str(&mut line, self.filters[i].name());
            let _ = write_stdout_line(line.as_str());
            let ghost before = *image;
            let ghost imgs0 = imgs;
            self.filters[i].apply(image);
            proof {
                assert(self.filters@[i as int].may_apply(before, *image));
                imgs = imgs.push(*image);
                assert forall|q: int| 0 <= q < i + 1 implies #[trigger] self.filters@[q].may_apply(imgs[q], imgs[q + 1]) by {
                    if q < i {
                        assert(imgs[q] == imgs0[q] && imgs[q + 1] == imgs0[q + 1]);
                    }
                }
            }
            i = i + 1;
        }
        assert(applied_in_turn(self.filters(), imgs));
    }
}

} // verus!
