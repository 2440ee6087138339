use pathtracer::noise::{perlin_generate_perm, permute, Perlin, PERLIN_TABLE_LEN};
use pathtracer::random::random_below;

#[test]
fn generated_table_is_a_permutation() {
    let table = perlin_generate_perm();
    assert_eq!(table.len(), PERLIN_TABLE_LEN);
    let mut sorted = table.clone();
    sorted.sort_unstable();
    let identity: Vec<i32> = (0..PERLIN_TABLE_LEN as i32).collect();
    assert_eq!(sorted, identity);
}

#[test]
fn two_tables_usually_differ() {
    // The tables are random; 256! orderings make a collision absurd, so a
    // second draw not equal to the first shows the shuffle really ran.
    let a = perlin_generate_perm();
    let b = perlin_generate_perm();
    assert_ne!(a, b);
}

#[test]
fn permute_rearranges_without_changing_entries() {
    let original: Vec<i32> = vec![3, 3, 7, -2, 100, 0, 7];
    let mut shuffled = original.clone();
    permute(&mut shuffled);
    assert_eq!(shuffled.len(), original.len());
    let mut a = shuffled.clone();
    let mut b = original.clone();
    a.sort_unstable();
    b.sort_unstable();
    assert_eq!(a, b);
}

#[test]
fn lattice_index_stays_in_table() {
    let px = perlin_generate_perm();
    let py = perlin_generate_perm();
    let pz = perlin_generate_perm();
    for &i in &[-1000, -256, -1, 0, 1, 255, 256, 12345] {
        for &j in &[-7, 0, 300] {
            let idx = Perlin::lattice_index(&px, &py, &pz, i, j, i ^ j);
            assert!(idx < PERLIN_TABLE_LEN);
        }
    }
}

#[test]
fn lattice_index_is_the_fold_of_the_tables() {
    let px = perlin_generate_perm();
    let py = perlin_generate_perm();
    let pz = perlin_generate_perm();
    for &(i, j, k) in &[(0, 0, 0), (17, -3, 255), (-256, 300, 12345), (-1, 1, -1)] {
        let expected = (px[(i & 255) as usize] ^ py[(j & 255) as usize] ^ pz[(k & 255) as usize])
            as usize;
        assert_eq!(Perlin::lattice_index(&px, &py, &pz, i, j, k), expected);
    }
}

#[test]
fn random_draws_stay_below_bound() {
    for bound in [1usize, 2, 3, 17] {
        for _ in 0..200 {
            assert!(random_below(bound) < bound);
        }
    }
}

#[test]
fn random_draws_reach_every_value() {
    let mut seen = [false; 3];
    for _ in 0..1000 {
        seen[random_below(3)] = true;
    }
    assert!(seen.iter().all(|&s| s));
}
