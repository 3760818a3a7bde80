use procpin::ccx::{cpuset_of, find_ccxes, Ccx};
use procpin::error::Error;
use procpin::topology::{CacheGroup, Cpu};

fn cpu_at(logical_core: usize, physical_core: usize, cache: usize) -> Cpu {
    Cpu {
        physical_core,
        logical_core,
        affinity_mask: 1u64 << (logical_core % 64),
        l3_group: CacheGroup { id: cache, size: 0 },
    }
}

fn caches(ccxes: &[Ccx]) -> Vec<usize> {
    ccxes.iter().map(|ccx| ccx.cpus[0].l3_group.id).collect()
}

#[test]
fn three_cores_with_two_caches_give_two_complexes() {
    let cpus = vec![cpu_at(0, 0, 0), cpu_at(1, 0, 0), cpu_at(2, 1, 1)];
    let ccxes = find_ccxes(&cpus);
    assert_eq!(ccxes.len(), 2);
    assert_eq!(ccxes[0].cpus, vec![cpu_at(0, 0, 0), cpu_at(1, 0, 0)]);
    assert_eq!(ccxes[1].cpus, vec![cpu_at(2, 1, 1)]);
}

#[test]
fn no_core_gives_no_complex() {
    assert!(find_ccxes(&[]).is_empty());
}

#[test]
fn one_cache_gives_one_complex_with_all_cores() {
    let cpus = vec![cpu_at(3, 1, 9), cpu_at(1, 0, 9), cpu_at(2, 1, 9), cpu_at(0, 0, 9)];
    let ccxes = find_ccxes(&cpus);
    assert_eq!(ccxes.len(), 1);
    assert_eq!(ccxes[0].cpus, cpus);
}

#[test]
fn complexes_come_in_the_order_of_their_caches() {
    let cpus = vec![
        cpu_at(0, 0, 7),
        cpu_at(1, 1, 2),
        cpu_at(2, 2, usize::MAX),
        cpu_at(3, 3, 0),
        cpu_at(4, 4, 2),
        cpu_at(5, 5, 7),
        cpu_at(6, 6, usize::MAX),
    ];
    let ccxes = find_ccxes(&cpus);
    assert_eq!(caches(&ccxes), vec![0, 2, 7, usize::MAX]);
    assert_eq!(ccxes[0].cpus, vec![cpu_at(3, 3, 0)]);
    assert_eq!(ccxes[1].cpus, vec![cpu_at(1, 1, 2), cpu_at(4, 4, 2)]);
    assert_eq!(ccxes[2].cpus, vec![cpu_at(0, 0, 7), cpu_at(5, 5, 7)]);
    assert_eq!(ccxes[3].cpus, vec![cpu_at(2, 2, usize::MAX), cpu_at(6, 6, usize::MAX)]);
}

#[test]
fn the_order_of_discovery_does_not_move_a_complex() {
    let cpus: Vec<Cpu> = (0..16).map(|n| cpu_at(n, n / 2, n / 4)).collect();
    let mut shuffled = cpus.clone();
    shuffled.reverse();
    shuffled.swap(0, 7);
    shuffled.swap(3, 12);
    let straight = find_ccxes(&cpus);
    let mixed = find_ccxes(&shuffled);
    assert_eq!(caches(&straight), vec![0, 1, 2, 3]);
    assert_eq!(caches(&mixed), vec![0, 1, 2, 3]);
    for (a, b) in straight.iter().zip(mixed.iter()) {
        let mut left: Vec<usize> = a.cpus.iter().map(|cpu| cpu.logical_core).collect();
        let mut right: Vec<usize> = b.cpus.iter().map(|cpu| cpu.logical_core).collect();
        left.sort();
        right.sort();
        assert_eq!(left, right);
    }
}

#[test]
fn every_core_is_in_exactly_one_complex() {
    let cpus: Vec<Cpu> =
        [5usize, 1, 5, 3, 1, 1, 8, 3, 5, 0].iter().enumerate().map(|(n, cache)| cpu_at(n, n, *cache)).collect();
    let ccxes = find_ccxes(&cpus);
    let total: usize = ccxes.iter().map(|ccx| ccx.cpus.len()).sum();
    assert_eq!(total, cpus.len());
    for cpu in &cpus {
        let holders = ccxes.iter().filter(|ccx| ccx.cpus.contains(cpu)).count();
        assert_eq!(holders, 1);
    }
    for ccx in &ccxes {
        assert!(!ccx.cpus.is_empty());
        for cpu in &ccx.cpus {
            assert!(cpus.contains(cpu));
            assert_eq!(cpu.l3_group.id, ccx.cpus[0].l3_group.id);
        }
    }
}

#[test]
fn the_size_of_a_cache_does_not_split_a_complex() {
    let mut small = cpu_at(0, 0, 4);
    small.l3_group.size = 16;
    let mut large = cpu_at(1, 1, 4);
    large.l3_group.size = 96;
    let ccxes = find_ccxes(&[small, large]);
    assert_eq!(ccxes.len(), 1);
    assert_eq!(ccxes[0].cpus, vec![small, large]);
}

#[test]
fn a_core_found_twice_is_kept_twice() {
    let cpus = vec![cpu_at(0, 0, 1), cpu_at(0, 0, 1), cpu_at(1, 1, 0)];
    let ccxes = find_ccxes(&cpus);
    assert_eq!(ccxes[0].cpus, vec![cpu_at(1, 1, 0)]);
    assert_eq!(ccxes[1].cpus, vec![cpu_at(0, 0, 1), cpu_at(0, 0, 1)]);
}

#[test]
fn ccd_id_divides_the_highest_physical_core_by_the_number_of_cores() {
    let ccx = Ccx { cpus: vec![cpu_at(8, 4, 1), cpu_at(9, 5, 1), cpu_at(10, 6, 1), cpu_at(11, 7, 1)] };
    assert_eq!(ccx.ccd_id(), 1);
    let ccx = Ccx { cpus: vec![cpu_at(0, 3, 0), cpu_at(1, 0, 0), cpu_at(2, 2, 0), cpu_at(3, 1, 0)] };
    assert_eq!(ccx.ccd_id(), 0);
    let ccx = Ccx { cpus: vec![cpu_at(0, 17, 0)] };
    assert_eq!(ccx.ccd_id(), 17);
    let ccx = Ccx { cpus: vec![cpu_at(0, 23, 0), cpu_at(1, 16, 0), cpu_at(2, 20, 0)] };
    assert_eq!(ccx.ccd_id(), 7);
    let ccx = Ccx { cpus: vec![cpu_at(0, usize::MAX, 0), cpu_at(1, 0, 0)] };
    assert_eq!(ccx.ccd_id(), usize::MAX / 2);
}

#[test]
fn affinity_mask_joins_the_masks_of_the_cores() {
    let mut first = cpu_at(0, 0, 0);
    first.affinity_mask = 0b0011;
    let mut second = cpu_at(2, 1, 0);
    second.affinity_mask = 0b0110;
    let mut third = cpu_at(63, 31, 0);
    third.affinity_mask = 1 << 63;
    assert_eq!(Ccx { cpus: vec![first, second, third] }.affinity_mask(), (1 << 63) | 0b0111);
    assert_eq!(Ccx { cpus: vec![second, first, second] }.affinity_mask(), 0b0111);
    assert_eq!(Ccx { cpus: vec![first] }.affinity_mask(), 0b0011);
    assert_eq!(Ccx { cpus: Vec::new() }.affinity_mask(), 0);
}

#[test]
fn add_to_adds_the_cores_and_keeps_what_was_there() {
    let mut set = nix::sched::CpuSet::new();
    set.set(100).unwrap();
    let ccx = Ccx { cpus: vec![cpu_at(3, 1, 0), cpu_at(1023, 2, 0), cpu_at(3, 1, 0)] };
    assert_eq!(ccx.add_to(&mut set), Ok(()));
    for n in 0..1024 {
        assert_eq!(set.is_set(n).unwrap(), n == 3 || n == 100 || n == 1023);
    }
    assert_eq!(Ccx { cpus: Vec::new() }.add_to(&mut set), Ok(()));
    for n in 0..1024 {
        assert_eq!(set.is_set(n).unwrap(), n == 3 || n == 100 || n == 1023);
    }
}

#[test]
fn add_to_refuses_a_core_beyond_the_set() {
    let mut set = nix::sched::CpuSet::new();
    let ccx = Ccx { cpus: vec![cpu_at(1, 0, 0), cpu_at(1024, 1, 0)] };
    assert_eq!(ccx.add_to(&mut set), Err(Error::Config));
    let ccx = Ccx { cpus: vec![cpu_at(usize::MAX, 0, 0)] };
    assert_eq!(ccx.add_to(&mut set), Err(Error::Config));
}

#[test]
fn cpuset_of_holds_the_cores_of_all_complexes() {
    let ccxes = vec![
        Ccx { cpus: vec![cpu_at(0, 0, 0), cpu_at(1, 0, 0)] },
        Ccx { cpus: Vec::new() },
        Ccx { cpus: vec![cpu_at(9, 4, 2), cpu_at(1, 0, 0)] },
    ];
    let set = cpuset_of(&ccxes).unwrap();
    for n in 0..1024 {
        assert_eq!(set.is_set(n).unwrap(), n == 0 || n == 1 || n == 9);
    }
    assert_eq!(cpuset_of(&[]).unwrap(), nix::sched::CpuSet::new());
}

#[test]
fn cpuset_of_refuses_a_core_beyond_the_set() {
    let ccxes = vec![Ccx { cpus: vec![cpu_at(0, 0, 0)] }, Ccx { cpus: vec![cpu_at(4096, 0, 1)] }];
    assert_eq!(cpuset_of(&ccxes), Err(Error::Config));
}
