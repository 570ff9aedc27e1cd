use turbostroi::affinity::{cpus_of_mask, mask_of_cpu_flags, MASK_CPUS};

#[test]
fn cpus_of_mask_lists_set_bits() {
    assert_eq!(cpus_of_mask(0b1011), vec![0, 1, 3]);
    assert_eq!(cpus_of_mask(0), Vec::<usize>::new());
    assert_eq!(cpus_of_mask(1 << 31), vec![31]);
    assert_eq!(cpus_of_mask(0xFFFF_FFFF).len(), 32);
}

#[test]
fn cpus_beyond_thirty_two_are_ignored() {
    assert_eq!(cpus_of_mask(usize::MAX), (0..32).collect::<Vec<usize>>());
}

#[test]
fn mask_of_cpu_flags_sets_bits() {
    let mut flags = vec![false; MASK_CPUS];
    flags[0] = true;
    flags[5] = true;
    flags[31] = true;
    assert_eq!(mask_of_cpu_flags(&flags), 1 | (1 << 5) | (1 << 31));
    assert_eq!(mask_of_cpu_flags(&vec![true, true]), 0b11);
    assert_eq!(mask_of_cpu_flags(&vec![true; 40]), 0xFFFF_FFFF);
}

#[test]
fn affinity_round_trip() {
    for mask in [0usize, 1, 0b1010, 0xFFFF_FFFF, 0x8000_0001, 0x1234_5678] {
        let cpus = cpus_of_mask(mask);
        let flags: Vec<bool> = (0..MASK_CPUS).map(|i| cpus.contains(&i)).collect();
        assert_eq!(mask_of_cpu_flags(&flags), mask & 0xFFFF_FFFF);
    }
}
