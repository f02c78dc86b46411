use icore::similarity::{cosine, dot, sim_le_exec, sim_lt_exec, Similarity};

fn sim_equiv_exec(a: &Similarity, b: &Similarity) -> bool {
    sim_le_exec(a, b) && sim_le_exec(b, a)
}

#[test]
fn cosine_of_a_vector_with_itself_is_one() {
    let a = vec![3, -4, 12];
    let s = cosine(&a, &a);
    let one = Similarity { dot: 1, norm_prod: 1 };
    assert!(sim_equiv_exec(&s, &one));
}

#[test]
fn cosine_is_symmetric() {
    let a = vec![1, 2, 3];
    let b = vec![-2, 5, 7];
    assert_eq!(cosine(&a, &b), cosine(&b, &a));
}

#[test]
fn cosine_with_zero_vector_is_zero() {
    let a = vec![0, 0, 0];
    let b = vec![5, -7, 9];
    let s = cosine(&a, &b);
    let zero = Similarity { dot: 0, norm_prod: 1 };
    assert!(sim_equiv_exec(&s, &zero));
}

#[test]
fn dot_product_exact_value() {
    let a = vec![1, 2, 3];
    let b = vec![4, -5, 6];
    assert_eq!(dot(&a, &b), 4 - 10 + 18);
}

#[test]
fn opposite_vectors_compare_below_zero() {
    let a = vec![1, 0];
    let b = vec![-1, 0];
    let s = cosine(&a, &b);
    let zero = Similarity { dot: 0, norm_prod: 1 };
    assert!(sim_lt_exec(&s, &zero));
}

#[test]
fn closer_vector_ranks_strictly_higher() {
    let q = vec![10, 0];
    let near = cosine(&q, &vec![9, 1]);
    let far = cosine(&q, &vec![1, 9]);
    assert!(sim_lt_exec(&far, &near));
}

#[test]
fn similarity_is_bounded_by_one_and_minus_one() {
    let one = Similarity { dot: 1, norm_prod: 1 };
    let minus_one = Similarity { dot: -1, norm_prod: 1 };
    let pairs = [
        (vec![1, 2, 3], vec![4, -5, 6]),
        (vec![1000, -1000], vec![-1000, 1000]),
        (vec![7, 7, 7], vec![7, 7, 7]),
    ];
    for (a, b) in pairs.iter() {
        let s = cosine(a, b);
        assert!(sim_le_exec(&s, &one));
        assert!(sim_le_exec(&minus_one, &s));
    }
}
