use intcode::amplifier::{find_max_thruster_signal, run_feedback_loop};
use intcode::parse::parse_program_text;
use intcode::perm::johnson_trotter;

const LOOPED_A: &str = "3,26,1001,26,-4,26,3,27,1002,27,2,27,1,27,26,27,4,27,1001,28,-1,28,1005,28,6,99,0,0,5";
const LOOPED_B: &str = "3,52,1001,52,-5,52,3,53,1,52,56,54,1007,54,5,55,1005,55,26,1001,54,-5,54,1105,1,12,1,53,54,53,1008,54,0,55,1001,55,1,55,2,53,55,53,4,53,1001,56,-1,56,1005,56,6,99,0,0,0,0,10";

#[test]
fn johnson_trotter_enumerates_all_orderings() {
    let perms = johnson_trotter();
    assert_eq!(perms.len(), 120);
    assert_eq!(perms[0].elements, vec![5, 6, 7, 8, 9]);
    for p in &perms {
        assert_eq!(p.elements.len(), 5);
        for v in 5..10 {
            assert!(p.elements.contains(&(v as i64)));
        }
    }
    for a in 0..perms.len() {
        for b in (a + 1)..perms.len() {
            assert_ne!(perms[a].elements, perms[b].elements);
        }
    }
}

#[test]
fn johnson_trotter_swaps_adjacent_elements() {
    let perms = johnson_trotter();
    for w in perms.windows(2) {
        let differs: Vec<usize> = (0..5).filter(|&k| w[0].elements[k] != w[1].elements[k]).collect();
        assert_eq!(differs.len(), 2);
        assert_eq!(differs[1], differs[0] + 1);
    }
}

#[test]
fn feedback_network_known_signal() {
    let values = parse_program_text(&LOOPED_A.to_owned()).unwrap();
    let phases: Vec<i64> = vec![9, 8, 7, 6, 5];
    assert_eq!(run_feedback_loop(&values, &phases).unwrap(), 139629729);

    let values = parse_program_text(&LOOPED_B.to_owned()).unwrap();
    let phases: Vec<i64> = vec![9, 7, 8, 5, 6];
    assert_eq!(run_feedback_loop(&values, &phases).unwrap(), 18216);
}

#[test]
fn feedback_network_is_deterministic() {
    let values = parse_program_text(&LOOPED_A.to_owned()).unwrap();
    let phases: Vec<i64> = vec![5, 6, 7, 8, 9];
    let first = run_feedback_loop(&values, &phases);
    let second = run_feedback_loop(&values, &phases);
    assert_eq!(first, second);
}

#[test]
fn max_thruster_signal_over_all_permutations() {
    let values = parse_program_text(&LOOPED_A.to_owned()).unwrap();
    let perms = johnson_trotter();
    let (best, idx) = find_max_thruster_signal(&values, &perms);
    assert_eq!(best, 139629729);
    assert_eq!(perms[idx].elements, vec![9, 8, 7, 6, 5]);

    let values = parse_program_text(&LOOPED_B.to_owned()).unwrap();
    let (best, idx) = find_max_thruster_signal(&values, &perms);
    assert_eq!(best, 18216);
    assert_eq!(perms[idx].elements, vec![9, 7, 8, 5, 6]);
}

#[test]
fn max_thruster_signal_dominates_every_permutation() {
    let values = parse_program_text(&LOOPED_B.to_owned()).unwrap();
    let perms = johnson_trotter();
    let (best, _) = find_max_thruster_signal(&values, &perms);
    for p in &perms {
        let one = run_feedback_loop(&values, &p.elements).unwrap();
        assert!(one <= best);
    }
}
