//! The stages compared with plain implementations written another way.

use eye_detection::contours::ContourProcessor;
use eye_detection::edge::EdgeDetector;
use eye_detection::frame::GrayMap;

struct Noise(u64);

impl Noise {
    fn next(&mut self) -> u32 {
        self.0 = self.0.wrapping_mul(6364136223846793005).wrapping_add(1442695040888963407);
        (self.0 >> 33) as u32
    }
}

fn smooth_image(noise: &mut Noise, w: usize, h: usize) -> Vec<u8> {
    // A few bright and dark blobs on a random background level.
    let mut img = vec![(noise.next() % 256) as i64; w * h];
    for _ in 0..4 {
        let cx = (noise.next() as usize % w) as i64;
        let cy = (noise.next() as usize % h) as i64;
        let r = 2 + (noise.next() % 6) as i64;
        let v = (noise.next() % 256) as i64;
        for y in 0..h as i64 {
            for x in 0..w as i64 {
                let d2 = (x - cx) * (x - cx) + (y - cy) * (y - cy);
                if d2 <= r * r {
                    img[y as usize * w + x as usize] = v;
                } else if d2 <= (r + 2) * (r + 2) {
                    let old = img[y as usize * w + x as usize];
                    img[y as usize * w + x as usize] = (old + v) / 2;
                }
            }
        }
    }
    img.iter().map(|&v| v as u8).collect()
}

fn at(img: &[u8], w: usize, h: usize, x: i64, y: i64) -> f64 {
    let cx = x.max(0).min(w as i64 - 1) as usize;
    let cy = y.max(0).min(h as i64 - 1) as usize;
    img[cy * w + cx] as f64
}

fn float_edges(img: &[u8], w: usize, h: usize, low: f64, high: f64) -> Vec<u8> {
    let mut gx = vec![0f64; w * h];
    let mut gy = vec![0f64; w * h];
    for y in 0..h as i64 {
        for x in 0..w as i64 {
            let i = y as usize * w + x as usize;
            gx[i] = at(img, w, h, x + 1, y - 1) + 2.0 * at(img, w, h, x + 1, y)
                + at(img, w, h, x + 1, y + 1)
                - at(img, w, h, x - 1, y - 1)
                - 2.0 * at(img, w, h, x - 1, y)
                - at(img, w, h, x - 1, y + 1);
            gy[i] = at(img, w, h, x - 1, y + 1) + 2.0 * at(img, w, h, x, y + 1)
                + at(img, w, h, x + 1, y + 1)
                - at(img, w, h, x - 1, y - 1)
                - 2.0 * at(img, w, h, x, y - 1)
                - at(img, w, h, x + 1, y - 1);
        }
    }
    let mag = |x: i64, y: i64| -> f64 {
        if x < 0 || y < 0 || x >= w as i64 || y >= h as i64 {
            0.0
        } else {
            let i = y as usize * w + x as usize;
            gx[i] * gx[i] + gy[i] * gy[i]
        }
    };
    let mut class = vec![0u8; w * h];
    for y in 0..h as i64 {
        for x in 0..w as i64 {
            let i = y as usize * w + x as usize;
            let angle = gy[i].abs().atan2(gx[i].abs()).to_degrees();
            let (dx, dy): (i64, i64) = if gx[i] == 0.0 && gy[i] == 0.0 {
                (1, 0)
            } else if angle < 22.5 {
                (1, 0)
            } else if angle > 67.5 {
                (0, 1)
            } else if (gx[i] > 0.0) == (gy[i] > 0.0) {
                (1, 1)
            } else {
                (1, -1)
            };
            let m = mag(x, y);
            if m >= mag(x + dx, y + dy) && m >= mag(x - dx, y - dy) {
                if m >= high * high {
                    class[i] = 2;
                } else if m >= low * low {
                    class[i] = 1;
                }
            }
        }
    }
    // weak pixels join the edges as long as one touches an edge pixel
    let mut out = vec![0u8; w * h];
    let mut stack: Vec<(i64, i64)> = Vec::new();
    for y in 0..h as i64 {
        for x in 0..w as i64 {
            if class[y as usize * w + x as usize] == 2 {
                out[y as usize * w + x as usize] = 255;
                stack.push((x, y));
            }
        }
    }
    while let Some((x, y)) = stack.pop() {
        for dy in -1..=1 {
            for dx in -1..=1 {
                let (nx, ny) = (x + dx, y + dy);
                if nx < 0 || ny < 0 || nx >= w as i64 || ny >= h as i64 {
                    continue;
                }
                let j = ny as usize * w + nx as usize;
                if class[j] != 0 && out[j] == 0 {
                    out[j] = 255;
                    stack.push((nx, ny));
                }
            }
        }
    }
    out
}

#[test]
fn edge_maps_agree_with_a_floating_point_detector() {
    let mut noise = Noise(7);
    for round in 0..60 {
        let w = 1 + (noise.next() % 24) as usize;
        let h = 1 + (noise.next() % 24) as usize;
        let img = smooth_image(&mut noise, w, h);
        // whole thresholds, so that both detectors compare exact numbers
        let low = (noise.next() % 300) as u64;
        let high = if round % 5 == 0 { low / 2 } else { low + (noise.next() % 400) as u64 };
        let ours = EdgeDetector::new((w as u32, h as u32)).execute_edge_detection(
            img.clone(),
            low * 256,
            high * 256,
        );
        let expected = float_edges(&img, w, h, low as f64, high as f64);
        assert_eq!(ours, expected, "round {} size {}x{} low {} high {}", round, w, h, low, high);
    }
}

#[test]
fn edge_maps_of_noise_agree_with_a_floating_point_detector() {
    let mut noise = Noise(2024);
    for round in 0..40 {
        let w = 1 + (noise.next() % 16) as usize;
        let h = 1 + (noise.next() % 16) as usize;
        let img: Vec<u8> = (0..w * h).map(|_| (noise.next() % 256) as u8).collect();
        let low = (noise.next() % 600) as u64;
        let high = low + (noise.next() % 600) as u64;
        let ours = EdgeDetector::new((w as u32, h as u32)).execute_edge_detection(
            img.clone(),
            low * 256,
            high * 256,
        );
        let expected = float_edges(&img, w, h, low as f64, high as f64);
        assert_eq!(ours, expected, "round {} size {}x{} low {} high {}", round, w, h, low, high);
    }
}

fn find(parent: &mut Vec<usize>, i: usize) -> usize {
    let mut root = i;
    while parent[root] != root {
        root = parent[root];
    }
    let mut at = i;
    while parent[at] != root {
        let next = parent[at];
        parent[at] = root;
        at = next;
    }
    root
}

#[test]
fn contours_agree_with_a_union_find_labelling() {
    let mut noise = Noise(99);
    for round in 0..80 {
        let w = 1 + (noise.next() % 20) as usize;
        let h = 1 + (noise.next() % 20) as usize;
        let density = 1 + noise.next() % 9;
        let pixels: Vec<u8> =
            (0..w * h).map(|_| if noise.next() % 10 < density { 255 } else { 0 }).collect();
        let mut parent: Vec<usize> = (0..w * h).collect();
        for y in 0..h as i64 {
            for x in 0..w as i64 {
                let i = y as usize * w + x as usize;
                if pixels[i] == 0 {
                    continue;
                }
                for (dx, dy) in [(1i64, 0i64), (-1, 1), (0, 1), (1, 1)] {
                    let (nx, ny) = (x + dx, y + dy);
                    if nx < 0 || nx >= w as i64 || ny >= h as i64 {
                        continue;
                    }
                    let j = ny as usize * w + nx as usize;
                    if pixels[j] != 0 {
                        let (a, b) = (find(&mut parent, i), find(&mut parent, j));
                        // the smaller place stays the root: it is the first pixel
                        if a < b {
                            parent[b] = a;
                        } else {
                            parent[a] = b;
                        }
                    }
                }
            }
        }
        let mut sizes = vec![0usize; w * h];
        for i in 0..w * h {
            if pixels[i] != 0 {
                let r = find(&mut parent, i);
                sizes[r] += 1;
            }
        }
        let filter = (round % 4) as usize;
        let expected_roots: Vec<usize> =
            (0..w * h).filter(|&i| sizes[i] > 0 && sizes[i] >= filter).collect();

        let map = GrayMap::new(w as u32, h as u32, pixels.clone()).unwrap();
        let found = ContourProcessor.find_contours(&map, filter);
        assert_eq!(found.len(), expected_roots.len(), "round {}", round);
        for (c, &root) in found.iter().zip(expected_roots.iter()) {
            let first = c.points[0];
            assert_eq!(first.y as usize * w + first.x as usize, root);
            assert_eq!(c.points.len(), sizes[root]);
            let mut places: Vec<usize> =
                c.points.iter().map(|p| p.y as usize * w + p.x as usize).collect();
            for &i in &places {
                assert!(pixels[i] != 0);
                assert_eq!(find(&mut parent, i), root);
            }
            places.sort();
            places.dedup();
            assert_eq!(places.len(), sizes[root]);
            // every later point touches an earlier one
            for k in 1..c.points.len() {
                let p = c.points[k];
                assert!(c.points[..k].iter().any(|q| {
                    (p.x as i64 - q.x as i64).abs() <= 1 && (p.y as i64 - q.y as i64).abs() <= 1
                }));
            }
        }
    }
}
