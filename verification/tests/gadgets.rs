use mem_gadgets::gadgets::{
    bvar_constant, bvar_value, chunk_cee, chunk_ee, chunk_ee_zero, cs_clone, cs_is_satisfied,
    custom_ge, felt_eq, felt_from_u64, fvar_value, fvar_witness, horners, mle_eval,
    new_constraint_system, ConstraintSys, FVar,
};

fn witnesses(cs: &ConstraintSys, vals: &[u64]) -> Vec<FVar> {
    vals.iter().map(|v| fvar_witness(cs, *v).unwrap()).collect()
}

#[test]
fn chunk_ee_equal_sequences_satisfiable() {
    let cs = new_constraint_system();
    let l = witnesses(&cs, &[5, 9, 200, 0]);
    let r = witnesses(&cs, &[5, 9, 200, 0]);
    chunk_ee(&l, &r, 8).unwrap();
    assert!(cs_is_satisfied(&cs).unwrap());
}

#[test]
fn chunk_ee_differing_sequences_unsatisfiable() {
    let cs = new_constraint_system();
    let l = witnesses(&cs, &[5, 9, 200, 0]);
    let r = witnesses(&cs, &[5, 9, 201, 0]);
    chunk_ee(&l, &r, 8).unwrap();
    assert!(!cs_is_satisfied(&cs).unwrap());
}

#[test]
fn chunk_ee_many_chunks() {
    // more values than one chunk holds, so several packed equalities
    let cs = new_constraint_system();
    let vals: Vec<u64> = (0..100).map(|i| i % 251).collect();
    let l = witnesses(&cs, &vals);
    let r = witnesses(&cs, &vals);
    chunk_ee(&l, &r, 8).unwrap();
    assert!(cs_is_satisfied(&cs).unwrap());
}

#[test]
fn chunk_ee_wide_chunks() {
    // bits = 16 gives chunks of 15 slots, so the table's higher powers
    // carry the second chunk
    let vals: Vec<u64> = (0..20).map(|i| 1000 * i + 7).collect();
    let cs = new_constraint_system();
    let l = witnesses(&cs, &vals);
    let r = witnesses(&cs, &vals);
    chunk_ee(&l, &r, 16).unwrap();
    assert!(cs_is_satisfied(&cs).unwrap());

    let mut other = vals.clone();
    other[19] += 1;
    let cs2 = new_constraint_system();
    let l = witnesses(&cs2, &vals);
    let r = witnesses(&cs2, &other);
    chunk_ee(&l, &r, 16).unwrap();
    assert!(!cs_is_satisfied(&cs2).unwrap());
}

#[test]
fn chunk_cee_false_condition_is_vacuous() {
    let cs = new_constraint_system();
    let l = witnesses(&cs, &[5]);
    let r = witnesses(&cs, &[6]);
    let cond = bvar_constant(false);
    chunk_cee(&cond, &l, &r, 8).unwrap();
    assert!(cs_is_satisfied(&cs).unwrap());
}

#[test]
fn chunk_ee_zero_checks() {
    let cs = new_constraint_system();
    let zeros = witnesses(&cs, &[0, 0, 0]);
    chunk_ee_zero(&zeros, 8).unwrap();
    assert!(cs_is_satisfied(&cs).unwrap());

    let cs2 = new_constraint_system();
    let nonzero = witnesses(&cs2, &[0, 1, 0]);
    chunk_ee_zero(&nonzero, 8).unwrap();
    assert!(!cs_is_satisfied(&cs2).unwrap());
}

#[test]
fn mle_eval_one_coordinate() {
    // mle_eval([a, b], [r]) == a*(1 - r) + b*r; with a=3, b=5, r=2
    // that is 3 - 6 + 10 = 7
    let table = vec![felt_from_u64(3), felt_from_u64(5)];
    let x = vec![felt_from_u64(2)];
    let got = mle_eval(&table, &x);
    assert!(felt_eq(&got, &felt_from_u64(7)));
}

#[test]
fn mle_eval_two_coordinates() {
    // table [1,2,3,4] at point (2,3):
    // (1-2)(1-3)*1 + (1-2)*3*2 + 2*(1-3)*3 + 2*3*4 = 2 - 6 - 12 + 24 = 8
    let table: Vec<_> = [1u64, 2, 3, 4].iter().map(|v| felt_from_u64(*v)).collect();
    let x = vec![felt_from_u64(2), felt_from_u64(3)];
    let got = mle_eval(&table, &x);
    assert!(felt_eq(&got, &felt_from_u64(8)));
}

#[test]
fn mle_eval_on_hypercube_returns_table_entry() {
    let table: Vec<_> = [11u64, 22, 33, 44].iter().map(|v| felt_from_u64(*v)).collect();
    let corners = [(0u64, 0u64, 11u64), (0, 1, 22), (1, 0, 33), (1, 1, 44)];
    for (b0, b1, want) in corners {
        let x = vec![felt_from_u64(b0), felt_from_u64(b1)];
        let got = mle_eval(&table, &x);
        assert!(felt_eq(&got, &felt_from_u64(want)));
    }
}

#[test]
fn horners_evaluates_polynomial() {
    // c0 + c1*t + c2*t^2 with (2, 3, 4) at t=5: 2 + 15 + 100 = 117
    let cs = new_constraint_system();
    let coeffs = witnesses(&cs, &[2, 3, 4]);
    let x = fvar_witness(&cs, 5).unwrap();
    let h = horners(&coeffs, &x);
    assert!(felt_eq(&fvar_value(&h).unwrap(), &felt_from_u64(117)));
    assert!(cs_is_satisfied(&cs).unwrap());
}

#[test]
fn horners_degree_three() {
    // 1 + 2t + 3t^2 + 4t^3 at t=2: 1 + 4 + 12 + 32 = 49
    let cs = new_constraint_system();
    let coeffs = witnesses(&cs, &[1, 2, 3, 4]);
    let x = fvar_witness(&cs, 2).unwrap();
    let h = horners(&coeffs, &x);
    assert!(felt_eq(&fvar_value(&h).unwrap(), &felt_from_u64(49)));
}

#[test]
fn horners_single_coefficient_is_constant() {
    let cs = new_constraint_system();
    let coeffs = witnesses(&cs, &[7]);
    let x = fvar_witness(&cs, 99).unwrap();
    let h = horners(&coeffs, &x);
    assert!(felt_eq(&fvar_value(&h).unwrap(), &felt_from_u64(7)));
}

#[test]
fn custom_ge_equal_values_is_true() {
    let cs = new_constraint_system();
    let l = fvar_witness(&cs, 5).unwrap();
    let g = fvar_witness(&cs, 5).unwrap();
    let bit = custom_ge(&l, &g, 8, cs_clone(&cs)).unwrap();
    assert!(bvar_value(&bit).unwrap());
    assert!(cs_is_satisfied(&cs).unwrap());
}

#[test]
fn custom_ge_smaller_g_is_false() {
    let cs = new_constraint_system();
    let l = fvar_witness(&cs, 6).unwrap();
    let g = fvar_witness(&cs, 5).unwrap();
    let bit = custom_ge(&l, &g, 8, cs_clone(&cs)).unwrap();
    assert!(!bvar_value(&bit).unwrap());
    assert!(cs_is_satisfied(&cs).unwrap());
}

#[test]
fn custom_ge_strictly_greater_is_true() {
    let cs = new_constraint_system();
    let l = fvar_witness(&cs, 5).unwrap();
    let g = fvar_witness(&cs, 255).unwrap();
    let bit = custom_ge(&l, &g, 8, cs_clone(&cs)).unwrap();
    assert!(bvar_value(&bit).unwrap());
    assert!(cs_is_satisfied(&cs).unwrap());
}
