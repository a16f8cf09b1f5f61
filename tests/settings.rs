use star::settings::{decimal_string, index_file_names, total_index_size, StarSettings};

fn tokens(s: &StarSettings) -> Vec<String> {
    s.args().clone()
}

#[test]
fn new_sets_every_default() {
    let s = StarSettings::new("test/ercc92-1.2.0/star/");
    let expected: Vec<String> = vec![
        "STAR",
        "--genomeDir",
        "test/ercc92-1.2.0/star/",
        "--runThreadN",
        "1",
        "--readNameSeparator",
        "space",
        "--outSAMunmapped",
        "Within",
        "KeepPairs",
        "--outSAMtype",
        "SAM",
        "--outStd",
        "SAM",
        "--outSAMorder",
        "PairedKeepInputOrder",
    ]
    .into_iter()
    .map(|t| t.to_string())
    .collect();
    assert_eq!(tokens(&s), expected);
    assert_eq!(s.reference_path(), "test/ercc92-1.2.0/star/");
}

#[test]
fn arg_appends_one_token() {
    let s = StarSettings::new("idx").arg("--outFilterScoreMin=20");
    let t = tokens(&s);
    assert_eq!(t.len(), 17);
    assert_eq!(t[16], "--outFilterScoreMin=20");
    assert_eq!(s.reference_path(), "idx");
}

#[test]
fn add_rg_appends_flag_then_tags_in_order() {
    let mut s = StarSettings::new("idx");
    s.add_rg(vec!["ID:rg1".to_string(), "SM:sample".to_string()]);
    let t = tokens(&s);
    assert_eq!(t.len(), 19);
    assert_eq!(t[16], "--outSAMattrRGline");
    assert_eq!(t[17], "ID:rg1");
    assert_eq!(t[18], "SM:sample");
}

#[test]
fn add_rg_with_no_tags_adds_only_the_flag() {
    let mut s = StarSettings::new("idx");
    s.add_rg(Vec::new());
    let t = tokens(&s);
    assert_eq!(t.len(), 17);
    assert_eq!(t[16], "--outSAMattrRGline");
}

#[test]
fn set_reference_path_overwrites_value_in_place() {
    let mut s = StarSettings::new("old").arg("--x");
    s.set_reference_path("new/index");
    let t = tokens(&s);
    assert_eq!(t.len(), 17);
    assert_eq!(t[1], "--genomeDir");
    assert_eq!(t[2], "new/index");
    assert_eq!(t[16], "--x");
    assert_eq!(s.reference_path(), "new/index");
    assert_eq!(t.iter().filter(|x| x.as_str() == "--genomeDir").count(), 1);
}

#[test]
fn index_size_is_the_sum_of_file_sizes() {
    assert_eq!(total_index_size(&[100, 20, 3]), Some(123));
    assert_eq!(total_index_size(&[]), Some(0));
    assert_eq!(index_file_names(), vec!["Genome", "SA", "SAindex"]);
}

#[test]
fn index_size_overflow_is_none() {
    assert_eq!(total_index_size(&[u64::MAX, 1]), None);
    assert_eq!(total_index_size(&[u64::MAX]), Some(u64::MAX as usize));
}

#[test]
fn multimap_cap_is_appended_when_absent() {
    let mut s = StarSettings::new("idx");
    s.set_multimap_max(20);
    let t = tokens(&s);
    assert_eq!(t.len(), 18);
    assert_eq!(t[16], "--outFilterMultimapNmax");
    assert_eq!(t[17], "20");
}

#[test]
fn multimap_cap_is_overwritten_in_place() {
    let mut s = StarSettings::new("idx").arg("--outFilterMultimapNmax").arg("10").arg("--x");
    s.set_multimap_max(1);
    let t = tokens(&s);
    assert_eq!(t.len(), 19);
    assert_eq!(t[16], "--outFilterMultimapNmax");
    assert_eq!(t[17], "1");
    assert_eq!(t[18], "--x");
    s.set_multimap_max(0);
    assert_eq!(tokens(&s)[17], "0");
    assert_eq!(tokens(&s).len(), 19);
}

#[test]
fn multimap_flag_without_value_gets_its_value() {
    let mut s = StarSettings::new("idx").arg("--outFilterMultimapNmax");
    s.set_multimap_max(5);
    let t = tokens(&s);
    assert_eq!(t.len(), 18);
    assert_eq!(t[16], "--outFilterMultimapNmax");
    assert_eq!(t[17], "5");
    assert_eq!(t.iter().filter(|x| x.as_str() == "--outFilterMultimapNmax").count(), 1);
}

#[test]
fn decimal_strings() {
    assert_eq!(decimal_string(0), "0");
    assert_eq!(decimal_string(7), "7");
    assert_eq!(decimal_string(10), "10");
    assert_eq!(decimal_string(1061), "1061");
    assert_eq!(decimal_string(usize::MAX), usize::MAX.to_string());
}
