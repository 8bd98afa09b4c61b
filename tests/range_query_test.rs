use data_dictionary::dict::RangeParams;
use data_dictionary::range_query::{
    create, query_append, BindValue, Target, LIST_DATASETS_BASE, LIST_PARTITIONS_BASE,
};

#[test]
fn no_parameters_lists_everything_in_order() {
    let (q, binds) = create(Target::Partition, None);
    assert_eq!(q, format!("{} ORDER BY created_at ASC;", LIST_PARTITIONS_BASE));
    assert!(binds.is_empty());
}

#[test]
fn all_four_bounds_for_partitions() {
    let p = RangeParams { start: Some(10), end: Some(20), offset: Some(3), count: Some(4) };
    let (q, binds) = create(Target::Partition, Some(p));
    assert_eq!(
        q,
        format!(
            "{} AND created_at BETWEEN $2::TIMESTAMPTZ AND $3::TIMESTAMPTZ ORDER BY created_at ASC OFFSET $4::INTEGER LIMIT $5::INTEGER;",
            LIST_PARTITIONS_BASE
        )
    );
    assert_eq!(
        binds,
        vec![
            BindValue::Timestamp(10),
            BindValue::Timestamp(20),
            BindValue::Integer(3),
            BindValue::Integer(4)
        ]
    );
}

#[test]
fn dataset_form_moves_slots_down() {
    let p = RangeParams { start: Some(10), end: None, offset: None, count: Some(4) };
    let (q, binds) = create(Target::Dataset, Some(p));
    assert_eq!(
        q,
        format!(
            "{} AND created_at >= $1::TIMESTAMPTZ ORDER BY created_at ASC LIMIT $2::INTEGER;",
            LIST_DATASETS_BASE
        )
    );
    assert_eq!(binds, vec![BindValue::Timestamp(10), BindValue::Integer(4)]);
}

#[test]
fn every_combination_numbers_its_slots_consecutively() {
    for mask in 0..16u32 {
        let p = RangeParams {
            start: if mask & 1 != 0 { Some(1) } else { None },
            end: if mask & 2 != 0 { Some(2) } else { None },
            offset: if mask & 4 != 0 { Some(3) } else { None },
            count: if mask & 8 != 0 { Some(4) } else { None },
        };
        let (q, binds) = create(Target::Partition, Some(p));
        let n = binds.len();
        assert_eq!(n as u32, mask.count_ones());
        for k in 2..2 + n {
            assert_eq!(q.matches(&format!("${}", k)).count(), 1);
        }
        assert!(!q.contains(&format!("${}", n + 2)));
        let (dq, _) = create(Target::Dataset, Some(p));
        for k in 1..1 + n {
            assert_eq!(dq.matches(&format!("${}", k)).count(), 1);
        }
        assert!(!dq.contains(&format!("${}", n + 1)));
    }
}

#[test]
fn query_append_keeps_partition_clause() {
    assert_eq!(
        query_append(Target::Partition, "ORDER BY created_at ASC LIMIT $2::INTEGER"),
        format!("{} ORDER BY created_at ASC LIMIT $2::INTEGER;", LIST_PARTITIONS_BASE)
    );
    assert_eq!(
        query_append(Target::Dataset, "ORDER BY created_at ASC LIMIT $2::INTEGER"),
        format!("{} ORDER BY created_at ASC LIMIT $1::INTEGER;", LIST_DATASETS_BASE)
    );
}
