use euclids_square::euclidean::euclidean_rhythm;

fn pattern(hits: usize, steps: usize) -> Vec<u8> {
    euclidean_rhythm(hits, steps).into_iter().collect()
}

#[test]
fn it_works() {
    let data = [
        ((1, 2), vec![1, 0]),
        ((5, 8), vec![1, 0, 1, 1, 0, 1, 1, 0]),
        ((5, 16), vec![1, 0, 0, 1, 0, 0, 1, 0, 0, 1, 0, 0, 1, 0, 0, 0]),
    ];
    for ((hits, steps), rythm) in &data {
        let res = euclidean_rhythm(*hits, *steps);
        assert_eq!(res.capacity(), 64);
        let res_vec: std::vec::Vec<_> = res.into_iter().collect();
        assert!(res_vec == *rythm);
    }
}

#[test]
fn no_hits_gives_rests() {
    assert_eq!(pattern(0, 4), vec![0, 0, 0, 0]);
}

#[test]
fn empty_pattern_has_no_steps() {
    assert_eq!(pattern(0, 0), Vec::<u8>::new());
}

#[test]
fn all_hits() {
    assert_eq!(pattern(16, 16), vec![1; 16]);
    assert_eq!(pattern(64, 64), vec![1; 64]);
}

#[test]
fn single_hit_on_longest_pattern() {
    let mut expected = vec![0; 64];
    expected[0] = 1;
    assert_eq!(pattern(1, 64), expected);
}

#[test]
fn classic_rhythms() {
    assert_eq!(pattern(3, 8), vec![1, 0, 0, 1, 0, 0, 1, 0]);
    assert_eq!(pattern(4, 12), vec![1, 0, 0, 1, 0, 0, 1, 0, 0, 1, 0, 0]);
    assert_eq!(pattern(2, 5), vec![1, 0, 1, 0, 0]);
}

fn gaps(p: &[u8]) -> Vec<usize> {
    let ones: Vec<usize> = (0..p.len()).filter(|&i| p[i] == 1).collect();
    (0..ones.len())
        .map(|k| {
            let a = ones[k];
            let b = ones[(k + 1) % ones.len()];
            if b > a { b - a } else { b + p.len() - a }
        })
        .collect()
}

#[test]
fn shape_holds_for_every_size() {
    for steps in 0..=64usize {
        for hits in 0..=steps {
            let p = pattern(hits, steps);
            assert_eq!(p.len(), steps);
            assert!(p.iter().all(|&v| v == 0 || v == 1));
            assert_eq!(p.iter().filter(|&&v| v == 1).count(), hits);
            if hits > 0 {
                assert_eq!(p[0], 1);
            }
        }
    }
}

#[test]
fn gaps_differ_by_at_most_one() {
    for steps in 1..=64usize {
        for hits in 1..=steps {
            let p = pattern(hits, steps);
            for g in gaps(&p) {
                assert!(g == steps / hits || g == steps / hits + 1, "{} {} {:?}", hits, steps, p);
            }
        }
    }
}
