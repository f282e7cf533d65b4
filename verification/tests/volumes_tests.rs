use qnap::volumes::{parse_disks, parse_volumes, split_rows, vol_status_label};

#[test]
fn vol_status_labels() {
    assert_eq!(vol_status_label("0"), "ready");
    assert_eq!(vol_status_label(" -1 "), "not ready");
    assert_eq!(vol_status_label("-4"), "error");
    assert_eq!(vol_status_label("-5"), "degraded");
    assert_eq!(vol_status_label("-6"), "not active");
    assert_eq!(vol_status_label("-7"), "ready");
    assert_eq!(vol_status_label("3"), "unknown");
    assert_eq!(vol_status_label(""), "unknown");
}

#[test]
fn rows_split_like_the_disk_manager_list() {
    assert_eq!(
        split_rows("<row>a</row><row>b</row>tail<row>c"),
        vec!["a".to_string(), "b".to_string(), "c".to_string()]
    );
    assert!(split_rows("<rows></rows>").is_empty());
}

#[test]
fn volumes_from_rows() {
    let body = "<row><vol_label>Data</vol_label><vol_status>-5</vol_status><poolID>1</poolID><lv_type>2</lv_type></row><row></row>";
    let vols = parse_volumes(body);
    assert_eq!(vols.len(), 2);
    assert_eq!(vols[0].label, "Data");
    assert_eq!(vols[0].status, "degraded");
    assert_eq!(vols[0].status_code, "-5");
    assert_eq!(vols[0].pool, "1");
    assert_eq!(vols[0].pool_id, Some(1));
    assert_eq!(vols[0].volume_type, "2");
    assert_eq!(vols[1].label, "");
    assert_eq!(vols[1].status, "unknown");
    assert_eq!(vols[1].status_code, "");
    assert_eq!(vols[1].pool_id, None);
}

#[test]
fn disks_from_sysinfo() {
    let sys = "<disk_num>3</disk_num>\
        <disk_installed1>1</disk_installed1><hd_pd_alias1>WD Red</hd_pd_alias1><tempc1>35</tempc1><hd_is_ssd1>0</hd_is_ssd1>\
        <disk_installed2>0</disk_installed2>\
        <disk_installed3>1</disk_installed3><hd_pd_alias3>Samsung</hd_pd_alias3><tempc3>0</tempc3><hd_is_ssd3>1</hd_is_ssd3>";
    let disks = parse_disks(sys);
    assert_eq!(disks.len(), 2);
    assert_eq!(disks[0].slot, 1);
    assert_eq!(disks[0].model, "WD Red");
    assert_eq!(disks[0].kind, "HDD");
    assert_eq!(disks[0].temp_c, Some(35));
    assert_eq!(disks[1].slot, 3);
    assert_eq!(disks[1].kind, "SSD");
    assert_eq!(disks[1].temp_c, None);
    assert!(parse_disks("<disk_num>x</disk_num>").is_empty());
}
