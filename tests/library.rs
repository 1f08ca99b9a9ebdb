use raytracer::bvh::{sort_on_axis, BvhTree};
use raytracer::perlin::{perlin_generate_perm, permute, permute_with, PerlinLattice, POINT_COUNT};
use raytracer::raster::{image_row, row_band, Raster};
use raytracer::reorder::swap_entries;
use raytracer::rtweekend::random_i32;
use raytracer::texture::{ImageTexture, SolidColor};

fn is_arrangement(p: &[i32], n: usize) -> bool {
    let mut seen = vec![false; n];
    if p.len() != n {
        return false;
    }
    for &v in p {
        if v < 0 || v as usize >= n || seen[v as usize] {
            return false;
        }
        seen[v as usize] = true;
    }
    true
}

fn leaves(t: &BvhTree, out: &mut Vec<usize>) {
    match t {
        BvhTree::Leaf(i) => out.push(*i),
        BvhTree::Pair { first, second, .. } => {
            out.push(*first);
            out.push(*second);
        }
        BvhTree::Node { left, right, .. } => {
            leaves(left, out);
            leaves(right, out);
        }
    }
}

#[test]
fn random_i32_stays_in_range() {
    let mut seen = [false; 3];
    for _ in 0..500 {
        let r = random_i32(0, 3);
        assert!((0..3).contains(&r));
        seen[r as usize] = true;
    }
    assert!(seen[1] || seen[2]);
    for _ in 0..100 {
        let r = random_i32(-5, -2);
        assert!((-5..-2).contains(&r));
    }
}

#[test]
fn random_i32_empty_range_gives_min() {
    assert_eq!(random_i32(7, 7), 7);
    assert_eq!(random_i32(9, 2), 9);
}

#[test]
fn generated_permutation_holds_each_index_once() {
    let p = perlin_generate_perm();
    assert_eq!(p.len(), POINT_COUNT);
    assert!(is_arrangement(&p, POINT_COUNT));
}

#[test]
fn permute_keeps_entries_and_tail() {
    let mut p: Vec<i32> = (0..10).collect();
    permute(&mut p, 6);
    assert_eq!(&p[6..], &[6, 7, 8, 9]);
    let mut sorted = p.clone();
    sorted.sort();
    assert_eq!(sorted, (0..10).collect::<Vec<i32>>());
}

#[test]
fn permute_moves_every_entry_it_visits() {
    // each step swaps with a strictly lower position, so the last entry always moves
    let mut p: Vec<i32> = (0..5).collect();
    permute(&mut p, 5);
    assert_ne!(p[4], 4);
    let mut q: Vec<i32> = vec![1, 2];
    permute(&mut q, 2);
    assert_eq!(q, vec![2, 1]);
}

#[test]
fn lattice_corner_matches_the_tables() {
    let l = PerlinLattice::new();
    for (i, j, k) in [(0, 0, 0), (255, 3, -1), (-256, 511, 1000), (i32::MAX, i32::MIN, -7)] {
        for di in 0..2usize {
            for dj in 0..2usize {
                for dk in 0..2usize {
                    let w = |c: i32, d: usize| ((c as i64 + d as i64).rem_euclid(256)) as usize;
                    let expect = l.perm_x[w(i, di)] ^ l.perm_y[w(j, dj)] ^ l.perm_z[w(k, dk)];
                    let got = l.corner(i, j, k, di, dj, dk);
                    assert_eq!(got, expect as usize);
                    assert!(got < POINT_COUNT);
                }
            }
        }
    }
}

#[test]
fn lattice_wraps_negative_coordinates() {
    let l = PerlinLattice::new();
    assert_eq!(l.corner(-1, 0, 0, 0, 0, 0), l.corner(255, 0, 0, 0, 0, 0));
    assert_eq!(l.corner(-1, 0, 0, 1, 0, 0), l.corner(0, 0, 0, 0, 0, 0));
    assert_eq!(l.corner(3, 300, 0, 0, 0, 1), l.corner(3, 44, 1, 0, 0, 0));
}

#[test]
fn sort_on_axis_orders_by_key() {
    let keys = vec![[5, 0, 9], [1, 7, 2], [3, 3, 3], [1, -4, 8]];
    let mut items = vec![0, 1, 2, 3];
    sort_on_axis(&keys, &mut items, 0);
    assert_eq!(items, vec![1, 3, 2, 0]);
    sort_on_axis(&keys, &mut items, 1);
    assert_eq!(items, vec![3, 0, 2, 1]);
    sort_on_axis(&keys, &mut items, 2);
    assert_eq!(items, vec![1, 2, 3, 0]);
}

#[test]
fn bvh_single_object_is_a_leaf() {
    let keys = vec![[0, 0, 0]];
    match BvhTree::new(&keys) {
        BvhTree::Leaf(0) => {}
        _ => panic!("expected a leaf over object 0"),
    }
}

#[test]
fn bvh_two_objects_are_a_pair_in_key_order() {
    let keys = vec![[4, 4, 4], [-1, -1, -1]];
    match BvhTree::new(&keys) {
        BvhTree::Pair { first: 1, second: 0, axis } => assert!(axis < 3),
        _ => panic!("expected the pair (1, 0)"),
    }
}

#[test]
fn bvh_places_every_object_once() {
    for n in [3usize, 4, 5, 17, 100] {
        let keys: Vec<[i64; 3]> = (0..n as i64).map(|i| [(i * 37) % 11, -i, (i * 7) % 5]).collect();
        let t = BvhTree::new(&keys);
        let mut out = Vec::new();
        leaves(&t, &mut out);
        assert_eq!(out.len(), n);
        out.sort();
        assert_eq!(out, (0..n).collect::<Vec<usize>>());
        match t {
            BvhTree::Node { axis, left, right } => {
                let (mut l, mut r) = (Vec::new(), Vec::new());
                leaves(&left, &mut l);
                leaves(&right, &mut r);
                assert_eq!(l.len(), n / 2);
                let lmax = l.iter().map(|&i| keys[i][axis]).max().unwrap();
                let rmin = r.iter().map(|&i| keys[i][axis]).min().unwrap();
                assert!(lmax <= rmin);
            }
            _ => panic!("expected a split node"),
        }
    }
}

#[test]
fn solid_color_returns_its_color() {
    let s = SolidColor::new((0.25f64, 0.5f64, 1.0f64));
    assert_eq!(s.value(), (0.25, 0.5, 1.0));
}

#[test]
fn image_texture_reads_and_clamps() {
    // 2 x 2 image: row 0 = (1,2,3) (4,5,6); row 1 = (7,8,9) (10,11,12)
    let data: Vec<u8> = (1..=12).collect();
    let t = ImageTexture::new(data, 2, 2);
    assert_eq!(t.texel(0, 0), Some((1, 2, 3)));
    assert_eq!(t.texel(1, 0), Some((4, 5, 6)));
    assert_eq!(t.texel(0, 1), Some((7, 8, 9)));
    assert_eq!(t.texel(1, 1), Some((10, 11, 12)));
    assert_eq!(t.texel(2, 0), Some((4, 5, 6)));
    assert_eq!(t.texel(5, 9), Some((10, 11, 12)));
}

#[test]
fn empty_image_texture_has_no_texel() {
    let t = ImageTexture::new(Vec::new(), 0, 0);
    assert_eq!(t.texel(0, 0), None);
}

#[test]
fn row_bands_tile_the_image() {
    for (height, workers) in [(225usize, 20usize), (600, 20), (7, 3), (3, 5), (0, 4)] {
        let mut next = 0;
        for t in 0..workers {
            let (b, e) = row_band(t, height, workers);
            assert_eq!(b, next);
            assert!(b <= e);
            next = e;
        }
        assert_eq!(next, height);
    }
    assert_eq!(row_band(0, 225, 20), (0, 11));
    assert_eq!(row_band(19, 225, 20), (213, 225));
}

#[test]
fn image_row_flips_vertically() {
    assert_eq!(image_row(0, 225), 224);
    assert_eq!(image_row(224, 225), 0);
    assert_eq!(image_row(112, 225), 112);
}

#[test]
fn raster_writes_one_pixel() {
    let mut r = Raster::new(3, 2);
    assert_eq!((r.width(), r.height()), (3, 2));
    r.write_color([10, 20, 30], 2, 1);
    let bytes = r.into_bytes();
    assert_eq!(bytes.len(), 18);
    assert_eq!(&bytes[15..18], &[10, 20, 30]);
    assert!(bytes[..15].iter().all(|&b| b == 0));
}

#[test]
fn swap_entries_exchanges_two() {
    let mut v = vec![1, 2, 3];
    swap_entries(&mut v, 0, 2);
    assert_eq!(v, vec![3, 2, 1]);
    swap_entries(&mut v, 1, 1);
    assert_eq!(v, vec![3, 2, 1]);
}

#[test]
fn permute_with_applies_the_given_swaps() {
    let mut p = vec![0, 1, 2, 3];
    permute_with(&mut p, 4, &vec![0, 0, 1, 2]);
    assert_eq!(p, vec![3, 0, 1, 2]);
    let mut q = vec![10, 20, 30, 40, 50];
    permute_with(&mut q, 3, &vec![0, 0, 0]);
    assert_eq!(q, vec![20, 30, 10, 40, 50]);
    let mut r = vec![7];
    permute_with(&mut r, 1, &vec![0]);
    assert_eq!(r, vec![7]);
}

#[test]
fn sort_on_axis_keeps_ties_in_order() {
    let keys = vec![[1, 0, 0], [0, 0, 0], [1, 0, 0], [0, 0, 0], [1, 0, 0]];
    let mut items = vec![4, 0, 1, 2, 3];
    sort_on_axis(&keys, &mut items, 0);
    assert_eq!(items, vec![1, 3, 4, 0, 2]);
    let mut same = vec![2, 0, 1];
    sort_on_axis(&keys, &mut same, 1);
    assert_eq!(same, vec![2, 0, 1]);
}

#[test]
fn bvh_pair_with_equal_keys_keeps_given_order() {
    let keys = vec![[2, 2, 2], [2, 2, 2]];
    match BvhTree::new(&keys) {
        BvhTree::Pair { first: 0, second: 1, .. } => {}
        _ => panic!("expected the pair (0, 1)"),
    }
}

#[test]
fn bvh_split_with_equal_keys_keeps_given_order() {
    let keys = vec![[0, 0, 0]; 4];
    match BvhTree::new(&keys) {
        BvhTree::Node { left, right, .. } => {
            let (mut l, mut r) = (Vec::new(), Vec::new());
            leaves(&left, &mut l);
            leaves(&right, &mut r);
            assert_eq!(l, vec![0, 1]);
            assert_eq!(r, vec![2, 3]);
        }
        _ => panic!("expected a split node"),
    }
}

#[test]
fn generated_permutation_moves_every_index() {
    for _ in 0..5 {
        let p = perlin_generate_perm();
        assert!(p.iter().enumerate().all(|(k, &v)| v as usize != k));
        let l = PerlinLattice::new();
        assert!(l.perm_x.iter().enumerate().all(|(k, &v)| v as usize != k));
        assert!(l.perm_y.iter().enumerate().all(|(k, &v)| v as usize != k));
        assert!(l.perm_z.iter().enumerate().all(|(k, &v)| v as usize != k));
    }
}
