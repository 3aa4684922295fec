use pxlr::collections::blocked_row_major::map_rm_to_brm;
use pxlr::collections::braille::{braille_fmt, braille_fmt2, braille_grid};
use pxlr::collections::byteschain::{Bound, BytesChain};
use pxlr::collections::mask::Mask;
use bytes::Bytes;

fn mask(bits: &[u8]) -> Mask {
    let v: Vec<bool> = bits.iter().map(|b| *b != 0).collect();
    Mask::from_bools(&v)
}

#[test]
fn test_map_rm_to_brm() {
        let a = vec![
            'a', 'b', 'c', 'd', 'e', 
            'f', 'g', 'h', 'i', 'j', 
            'k', 'l', 'm', 'n', 'o', 
            'p', 'q', 'r', 's', 't', 
            'u', 'v', 'w', 'x', 'y',
            'z', '0', '1', '2', '3',
            '4', '5', '6', '7', '8', '9'
        ];

        let (m, n) = (5usize, 5usize);
        let (p, q) = (2usize, 2usize);
        let mut b = vec![' '; m * n];
        let c = vec![
            'a', 'b', 'e', 'f', 'i',
            'c', 'd', 'g', 'h', 'j',
            'k', 'l', 'o', 'p', 's',
            'm', 'n', 'q', 'r', 't', 
            'u', 'v', 'w', 'x', 'y',
        ];
        for i in 0..(m * n) {
            b[i] = a[map_rm_to_brm(p, q, m, n, i)];
        }
        assert_eq!(b, c);

        let (m, n) = (5usize, 5usize);
        let (p, q) = (3usize, 3usize);
        let mut b = vec![' '; m * n];
        let c = vec![
            'a', 'b', 'c', 'j', 'k',
            'd', 'e', 'f', 'l', 'm',
            'g', 'h', 'i', 'n', 'o',
            'p', 'q', 'r', 'v', 'w',
            's', 't', 'u', 'x', 'y',
        ];
        for i in 0..m * n {
            b[i] = a[map_rm_to_brm(p, q, m, n, i)];
        }
        assert_eq!(b, c);

        let (m, n) = (5usize, 5usize);
        let (p, q) = (5usize, 5usize);
        let mut b = vec![' '; m * n];
        for i in 0..m * n {
            b[i] = a[map_rm_to_brm(p, q, m, n, i)];
        }
        assert_eq!(b[..], a[0..m * n]);

        let (m, n) = (5usize, 5usize);
        let (p, q) = (4usize, 2usize);
        let mut b = vec![' '; m * n];
        let c = vec![
            'a', 'b', 'c', 'd', 'i',
            'e', 'f', 'g', 'h', 'j',
            'k', 'l', 'm', 'n', 's',
            'o', 'p', 'q', 'r', 't',
            'u', 'v', 'w', 'x', 'y',
        ];
        for i in 0..m * n {
            b[i] = a[map_rm_to_brm(p, q, m, n, i)];
        }
        assert_eq!(b, c);

        let (m, n) = (5usize, 5usize);
        let (p, q) = (2usize, 5usize);
        let mut b = vec![' '; m * n];
        let c = vec![
            'a', 'b', 'k', 'l', 'u',
            'c', 'd', 'm', 'n', 'v',
            'e', 'f', 'o', 'p', 'w',
            'g', 'h', 'q', 'r', 'x',
            'i', 'j', 's', 't', 'y',
        ];
        for i in 0..m * n {
            b[i] = a[map_rm_to_brm(p, q, m, n, i)];
        }
        assert_eq!(b, c);

        let (m, n) = (5usize, 5usize);
        let (p, q) = (5usize, 2usize);
        let mut b = vec![' '; m * n];
        for i in 0..m * n {
            b[i] = a[map_rm_to_brm(p, q, m, n, i)];
        }
        assert_eq!(b[..], a[0..m * n]);

        let (m, n) = (5usize, 5usize);
        let (p, q) = (10usize, 10usize);
        let mut b = vec![' '; m * n];
        for i in 0..m * n {
            b[i] = a[map_rm_to_brm(p, q, m, n, i)];
        }
        assert_eq!(b[..], a[0..m * n]);

        let (m, n) = (5usize, 5usize);
        let (p, q) = (10usize, 2usize);
        let mut b = vec![' '; m * n];
        for i in 0..m * n {
            b[i] = a[map_rm_to_brm(p, q, m, n, i)];
        }
        assert_eq!(b[..], a[0..m * n]);

        let (m, n) = (5usize, 5usize);
        let (p, q) = (2usize, 10usize);
        let mut b = vec![' '; m * n];
        let c = vec![
            'a', 'b', 'k', 'l', 'u',
            'c', 'd', 'm', 'n', 'v',
            'e', 'f', 'o', 'p', 'w',
            'g', 'h', 'q', 'r', 'x',
            'i', 'j', 's', 't', 'y',
        ];
        for i in 0..m * n {
            b[i] = a[map_rm_to_brm(p, q, m, n, i)];
        }
        assert_eq!(b, c);
    }

#[test]
fn brm_full_width_blocks_keep_row_major() {
    for m in 1..7usize {
        for n in 1..7usize {
            for i in 0..m * n {
                assert_eq!(map_rm_to_brm(m, n, m, n, i), i);
                assert_eq!(map_rm_to_brm(m + 3, n + 1, m, n, i), i);
            }
        }
    }
}

#[test]
fn brm_two_by_two_blocks() {
    let expected = [0usize, 1, 4, 5, 8, 2, 3, 6, 7, 9];
    for (i, e) in expected.iter().enumerate() {
        assert_eq!(map_rm_to_brm(2, 2, 5, 5, i), *e);
    }
}

#[test]
fn test_specs() {
    let mut a = BytesChain::new();
    a.push(Bytes::from(&[1u8, 2, 3, 4, 5][..]));
    a.push(Bytes::from(&[6u8, 7, 8, 9, 10][..]));
    let mut b = a.slice(Bound::Included(3), Bound::Excluded(8));
    b.push(Bytes::from(&[11u8, 12, 13, 14, 15][..]));

    let mut buf = vec![0u8; 5];
    b.copy_to_slice(Bound::Included(5), Bound::Excluded(10), &mut buf);
    buf = buf.drain(..).map(|i| i + 10).collect();
    let mut c = BytesChain::new();
    c.append(b.slice(Bound::Included(0), Bound::Excluded(5)));
    c.push(Bytes::from(buf));

    assert_eq!(c.index(5), 21);
    assert_eq!(c.iter(), vec![4, 5, 6, 7, 8, 21, 22, 23, 24, 25]);
}

#[test]
fn byteschain_len_and_bytes() {
    let mut a = BytesChain::from_vec(vec![1, 2, 3]);
    assert_eq!(a.len(), 3);
    a.push(Bytes::from(&[4u8, 5][..]));
    assert_eq!(a.len(), 5);
    assert_eq!(a.index(3), 4);
    assert_eq!(a.slice(Bound::Unbounded, Bound::Unbounded).iter(), vec![1, 2, 3, 4, 5]);
    assert_eq!(a.slice(Bound::Included(2), Bound::Excluded(4)).iter(), vec![3, 4]);
    let joined = a.into_bytes();
    assert_eq!(&joined[..], &[1u8, 2, 3, 4, 5][..]);
    let mut c = BytesChain::from_bytes(Bytes::from(&[9u8][..]));
    assert_eq!(c.len(), 1);
    c.clear();
    assert_eq!(c.len(), 0);
}

#[test]
fn byteschain_copy_stops_at_end() {
    let a = BytesChain::from_vec(vec![1, 2, 3, 4]);
    let mut buf = vec![0u8; 4];
    a.copy_to_slice(Bound::Included(2), Bound::Unbounded, &mut buf);
    assert_eq!(buf, vec![3, 4, 0, 0]);
}

#[test]
fn lib_it_braille_fmt() {
    let v = mask(&[1, 0, 1, 1, 1]);
    assert_eq!(braille_fmt(&v), "⠗");
    let v = mask(&[1, 0, 1, 1, 0, 1, 0, 1, 1, 0, 1, 0, 0, 1, 1]);
    assert_eq!(braille_fmt(&v), "⢕⡝");
}

#[test]
fn lib_it_braille_fmt2() {
    let v = mask(&[1, 0, 1, 1, 1]);
    assert_eq!(braille_fmt2(&v, 3, 1, ""), "⠁⠉⠁");
    let v = mask(&[1, 0, 1, 1, 0, 1, 0, 1, 1, 0, 1, 0, 0, 1, 1]);
    assert_eq!(braille_fmt2(&v, 4, 1, ""), "⠃⠋⠘⠊");
}

#[test]
fn braille_fmt_test_it_braille_fmt() {
    let v = mask(&[1, 0, 1, 1, 1]);
    assert_eq!(braille_fmt(&v), "⠗");
    let v = mask(&[1, 0, 1, 1, 0, 1, 0, 1, 1, 0, 1, 0, 0, 1, 1]);
    assert_eq!(braille_fmt(&v), "⢕⡝");
}

#[test]
fn braille_fmt_test_it_braille_fmt2() {
    let v = mask(&[1, 1, 1]);
    assert_eq!(braille_grid(&v, 1, 3, ""), "⠇");
    let v = mask(&[1, 1, 1]);
    assert_eq!(braille_grid(&v, 3, 1, ""), "⠉⠁");
    let v = mask(&[1, 0, 1, 1, 1]);
    assert_eq!(braille_grid(&v, 5, 1, ""), "⠁⠉⠁");
    let v = mask(&[1, 0, 1, 1, 0, 1, 0, 1, 1, 0, 1, 0, 0, 1, 1]);
    assert_eq!(braille_grid(&v, 15, 1, ""), "⠁⠉⠈⠈⠁⠁⠈⠁");
}

#[test]
fn braille_rows_are_joined() {
    let v = mask(&[1, 0, 0, 0, 0, 0, 0, 0, 1, 0]);
    assert_eq!(braille_fmt2(&v, 1, 2, "|"), "⠁|⠁");
    assert_eq!(braille_grid(&v, 2, 5, "|"), "⠁|⠁");
}

#[test]
fn mask_round_trip() {
    let bits = vec![true, false, true, true];
    let m = Mask::from_bools(&bits);
    assert_eq!(m.to_bools(), bits);
    assert_eq!(m.duplicate().to_bools(), bits);
}

#[test]
fn blocked_layout_is_a_permutation_of_the_grid() {
    for (p, q) in [(2, 2), (3, 2), (5, 1), (1, 5), (4, 3), (7, 7)] {
        let mut seen: Vec<usize> = (0..35).map(|i| map_rm_to_brm(p, q, 7, 5, i)).collect();
        seen.sort();
        assert_eq!(seen, (0..35).collect::<Vec<usize>>());
    }
}

#[test]
fn full_width_blocks_keep_wide_grids_in_order() {
    let m = usize::MAX / 2 + 10;
    assert_eq!(map_rm_to_brm(m, 1, m, 1, 5), 5);
    assert_eq!(map_rm_to_brm(m, 1, m, 1, m - 1), m - 1);
}

#[test]
fn blocks_that_divide_the_grid_tile_it() {
    for (p, q, m, n) in [(2, 2, 4, 4), (1, 1, 2, 2), (2, 3, 6, 6), (3, 2, 6, 5)] {
        let mut seen: Vec<usize> = (0..m * n).map(|i| map_rm_to_brm(p, q, m, n, i)).collect();
        seen.sort();
        assert_eq!(seen, (0..m * n).collect::<Vec<usize>>());
    }
    // A 4x4 grid of 2x2 blocks: the first row of blocks holds rows 0 and 1.
    assert_eq!(map_rm_to_brm(2, 2, 4, 4, 2), 4);
    assert_eq!(map_rm_to_brm(2, 2, 4, 4, 8), 8);
    assert_eq!(map_rm_to_brm(2, 2, 4, 4, 5), 3);
}
