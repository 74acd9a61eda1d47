use raytracer::render::render_image;

#[test]
fn render_puts_highest_scanline_first() {
    let bmp = render_image(2, 3, |j| vec![[j as u8, 0, 0], [j as u8, 1, 0]]);
    assert_eq!(bmp.width(), 2);
    assert_eq!(
        bmp.data(),
        &[[2, 0, 0], [2, 1, 0], [1, 0, 0], [1, 1, 0], [0, 0, 0], [0, 1, 0]]
    );
}

#[test]
fn render_two_by_two_gives_four_pixels() {
    let bmp = render_image(2, 2, |j| vec![[j as u8 * 100, 50, 255], [j as u8, 0, 1]]);
    assert_eq!(bmp.data().len(), 4);
    let bytes = bmp.output().unwrap();
    assert_eq!(bytes.len(), 54 + 2 * 8);
    assert_eq!(&bytes[54..62], &[255, 50, 100, 1, 0, 1, 0, 0]);
    assert_eq!(&bytes[62..70], &[255, 50, 0, 1, 0, 0, 0, 0]);
}

#[test]
fn render_empty_image() {
    let bmp = render_image(5, 0, |_| vec![[1, 1, 1]; 5]);
    assert!(bmp.data().is_empty());
    assert_eq!(bmp.width(), 5);
}

#[test]
fn render_with_fixed_seeds_is_reproducible() {
    let scanline = |seed: u64| {
        move |j: usize| {
            let mut rng = fastrand::Rng::with_seed(seed ^ (j as u64));
            (0..4).map(|_| [rng.u8(..), rng.u8(..), rng.u8(..)]).collect::<Vec<_>>()
        }
    };
    let a = render_image(4, 3, scanline(7));
    let b = render_image(4, 3, scanline(7));
    assert_eq!(a.data(), b.data());
    assert_eq!(a.output().unwrap(), b.output().unwrap());
    let c = render_image(4, 3, scanline(8));
    assert_ne!(a.data(), c.data());
}
