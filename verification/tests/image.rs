use designkit::image::{Filter, Grayscale, Image, Pipeline};
use designkit::image_chain::{FilterError, Grayscale as Gray, ImageFilter, Pipeline as Chain};

#[test]
fn empty_pipeline_is_no_op() {
    let mut img = Image {
        width: 42,
        height: 42,
        pixels: vec![],
    };
    Pipeline::new().execute(&mut img);
    assert_eq!(img.width, 42);
}

struct Invert;

impl Filter for Invert {
    fn name(&self) -> &str {
        "invert"
    }
    fn apply(&self, image: &mut Image) {
        for px in image.pixels.iter_mut() {
            *px = 255 - *px;
        }
    }
}

/// Adding a custom filter requires no change to the pipeline.
#[test]
fn custom_third_party_filter() {
    let mut img = Image {
        width: 1,
        height: 1,
        pixels: vec![0, 100, 200, 255],
    };
    Pipeline::new().add(Invert).execute(&mut img);
    assert_eq!(img.pixels, vec![255, 155, 55, 0]);
}

#[test]
fn grayscale_keeps_the_image() {
    let mut img = Image::new(3, 2, vec![1, 2, 3]);
    Pipeline::new().add(Grayscale).add(Grayscale).execute(&mut img);
    assert_eq!(img.width, 3);
    assert_eq!(img.height, 2);
    assert_eq!(img.pixels, vec![1, 2, 3]);
    assert_eq!(Grayscale.name(), "grayscale");
}

#[test]
fn filters_run_in_the_order_added() {
    struct Append(u8);
    impl Filter for Append {
        fn name(&self) -> &str {
            "append"
        }
        fn apply(&self, image: &mut Image) {
            image.pixels.push(self.0);
        }
    }
    let mut img = Image::new(1, 1, vec![]);
    Pipeline::new().add(Append(1)).add(Append(2)).add(Append(3)).execute(&mut img);
    assert_eq!(img.pixels, vec![1, 2, 3]);
}

struct Failing;

impl ImageFilter for Failing {
    fn apply(&self, _image: &mut Image) -> Result<(), FilterError> {
        Err(FilterError::new("failing", "always"))
    }

    fn name(&self) -> &str {
        "failing"
    }
}

#[test]
fn chain_stops_at_first_failure() {
    let chain: Chain<dyn ImageFilter> = Chain::new();
    let chain = chain.add_filter(Box::new(Gray)).add_filter(Box::new(Failing)).add_filter(Box::new(Gray));
    let mut img = Image::new(4, 2, vec![0; 8]);
    let e = chain.execute(&mut img).unwrap_err();
    assert_eq!(e.to_string(), "Filter 'failing' failed: always");
    let empty: Chain<dyn ImageFilter> = Chain::new();
    assert!(empty.execute(&mut img).is_ok());
    assert_eq!((img.width, img.height), (4, 2));
}
