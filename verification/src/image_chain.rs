//! An image pipeline whose filters may fail: the filters run in order and
//! the first failure stops the run.
use vstd::prelude::*;
use crate::image::Image;
use crate::text::{decimal, owned, push_decimal, push_str};
use crate::sys::write_stdout_line;

verus! {

/// A filter that failed, and why.
#[derive(Debug, Clone)]
pub struct FilterError {
    pub filter_name: String,
    pub message: String,
}

impl FilterError {
    pub fn new(filter_name: &str, message: &str) -> (r: Self)
        ensures
            r.filter_name@ == filter_name@,
            r.message@ == message@,
    {
        FilterError { filter_name: owned(filter_name), message: owned(message) }
    }

    /// `Filter '<name>' failed: <message>`.
    pub fn to_string(&self) -> (r: String)
        ensures
            r@ == "Filter '"@ + self.filter_name@ + "' failed: "@ + self.message@,
    {
        let mut s = String::new();
        push_str(&mut s, "Filter '");
        push_str(&mut s, self.filter_name.as_str());
        push_str(&mut s, "' failed: ");
        push_str(&mut s, self.message.as_str());
        s
    }
}

/// An image filter. New filters are new types that implement this trait.
pub trait ImageFilter {
    /// Whether applying the filter may turn `before` into `after` with the
    /// outcome `r`. Each filter of this library says exactly what it does; one
    /// that does not say may do anything.
    open spec fn admits(&self, before: Image, after: Image, r: Result<(), FilterError>) -> bool {
        true
    }

    /// Applies the filter to the image, or says why it could not.
    fn apply(&self, image: &mut Image) -> (r: Result<(), FilterError>)
        ensures
            self.admits(*old(image), *final(image), r);

    /// The filter's name, for the log.
    fn name(&self) -> &str;
}

/// Converts an image to grayscale; the pixels are left to a later version,
/// so the image comes back as it was.
#[derive(Debug, Clone, Copy)]
pub struct Grayscale;

impl ImageFilter for Grayscale {
    open spec fn admits(&self, before: Image, after: Image, r: Result<(), FilterError>) -> bool {
        r is Ok && after == before
    }

    fn apply(&self, image: &mut Image) -> (r: Result<(), FilterError>)
        ensures
            r is Ok,
            *final(image) == *old(image),
    {
        let _ = write_stdout_line("  Converted to grayscale");
        Ok(())
    }

    fn name(&self) -> (r: &str)
        ensures
            r@ == "grayscale"@,
    {
        "grayscale"
    }
}

/// An ordered sequence of filters. `F` is the type of filter kept, most
/// often `dyn ImageFilter`.
pub struct Pipeline<F: ImageFilter + ?Sized> {
    filters: Vec<Box<F>>,
}

/// The first `k` filters each succeed, turning `imgs[i]` into `imgs[i + 1]`.
pub open spec fn steps_ok<F: ImageFilter + ?Sized>(filters: Seq<Box<F>>, imgs: Seq<Image>, k: int) -> bool {
    forall|i: int| 0 <= i < k ==> #[trigger] filters[i].admits(imgs[i], imgs[i + 1], Ok(()))
}

impl<F: ImageFilter + ?Sized> Pipeline<F> {
    /// The filters, in the order they run.
    pub closed spec fn filters(&self) -> Seq<Box<F>> {
        self.filters@
    }

    /// The number of filters.
    pub open spec fn len(&self) -> nat {
        self.filters().len()
    }

    pub fn new() -> (r: Self)
        ensures
            r.len() == 0,
    {
        Pipeline { filters: Vec::new() }
    }

    /// The pipeline with `filter` added at the end.
    pub fn add_filter(self, filter: Box<F>) -> (r: Self)
        ensures
            r.len() == self.len() + 1,
    {
        let mut v = self.filters;
        v.push(filter);
        Pipeline { filters: v }
    }

    /// Runs every filter in order on the image, logging each by name, and
    /// stops at the first failure. With no filters the image is unchanged.
    ///
    /// On success every filter ran, each on what the one before left; on
    /// failure the filters before the failing one succeeded, the failing
    /// one's error is returned and the filters after it did not run.
    pub fn execute(&self, image: &mut Image) -> (r: Result<(), FilterError>)
        ensures
            self.len() == 0 ==> r is Ok && *final(image) == *old(image),
            r is Ok ==> exists|imgs: Seq<Image>| #[trigger] steps_ok(self.filters(), imgs, self.len() as int)
                && imgs.len() == self.len() + 1 && imgs[0] == *old(image) && imgs.last() == *final(image),
            r matches Err(e) ==> exists|imgs: Seq<Image>, k: int| #[trigger] steps_ok(self.filters(), imgs, k)
                && 0 <= k < self.len() && imgs.len() == k + 2 && imgs[0] == *old(image) && imgs[k + 1] == *final(image)
                && self.filters()[k].admits(imgs[k], imgs[k + 1], Err(e)),
    {
        let ghost mut imgs: Seq<Image> = seq![*image];
        let mut line = String::new();
        push_str(&mut line, "Running pipeline (");
        push_decimal(&mut line, self.filters.len() as u64);
        push_str(&mut line, " filters):");
        let _ = write_stdout_line(line.as_str());
        let mut i: usize = 0;
        while i < self.filters.len()
            invariant
                0 <= i <= self.filters@.len(),
                self.filters@.len() == 0 ==> *image == *old(image),
                imgs.len() == i + 1,
                imgs[0] == *old(image),
                imgs[i as int] == *image,
                steps_ok(self.filters(), imgs, i as int),
            decreases self.filters@.len() - i,
        {
            let mut tag = String::new();
            push_str(&mut tag, "  [");
            push_str(&mut tag, self.filters[i].name());
            push_str(&mut tag, "]");
            let _ = write_stdout_line(tag.as_str());
            let ghost before = *image;
            let ghost imgs0 = imgs;
            let outcome = self.filters[i].apply(image);
            assert(self.filters()[i as int].admits(before, *image, outcome));
            proof {
                imgs = imgs.push(*image);
                assert(steps_ok(self.filters(), imgs, i as int)) by {
                    assert forall|q: int| 0 <= q < i implies #[trigger] self.filters()[q].admits(imgs[q], imgs[q + 1], Ok(())) by {
                        assert(imgs[q] == imgs0[q] && imgs[q + 1] == imgs0[q + 1]);
                    }
                }
            }
            if outcome.is_err() {
                assert(self.filters()[i as int].admits(imgs[i as int], imgs[i + 1], outcome));
                return outcome;
            }
            assert(outcome is Ok);
            assert(outcome == Ok::<(), FilterError>(())) by {
                match outcome {
                    Ok(u) => { assert(u == ()); },
                    Err(_) => {},
                }
            }
            assert(steps_ok(self.filters(), imgs, i + 1)) by {
                assert forall|q: int| 0 <= q < i + 1 implies #[trigger] self.filters()[q].admits(imgs[q], imgs[q + 1], Ok(())) by {
                    if q == i {
                        assert(imgs[q] == before);
                        assert(imgs[q + 1] == *image);
                        assert(outcome == Ok::<(), FilterError>(()));
                    } else {
                        assert(steps_ok(self.filters(), imgs, i as int));
                    }
                }
            }
            i = i + 1;
        }
        let mut done = String::new();
        push_str(&mut done, "Pipeline complete. Final size: ");
        push_decimal(&mut done, image.width as u64);
        push_str(&mut done, "x");
        push_decimal(&mut done, image.height as u64);
        let _ = write_stdout_line(done.as_str());
        assert(imgs.last() == *image);
        Ok(())
    }
}

} // verus!
