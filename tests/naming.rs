use quotick::config::{
    build_epoch_index_backing_file_name, build_frame_backing_file_name,
    build_index_backing_file_name,
};
use quotick::path_builder::join;
use quotick::QuotickPathBuilder;

#[test]
fn file_names_carry_the_epoch_in_decimal() {
    assert_eq!(build_frame_backing_file_name(0), "frameset/0.qtf");
    assert_eq!(build_frame_backing_file_name(19_000), "frameset/19000.qtf");
    assert_eq!(build_index_backing_file_name(42), "frameset/42.qti");
    assert_eq!(
        build_index_backing_file_name(u64::MAX),
        "frameset/18446744073709551615.qti"
    );
    assert_eq!(build_epoch_index_backing_file_name(), "epochs.qti");
}

#[test]
fn join_puts_one_separator_between_parts() {
    assert_eq!(join("a", "b"), "a/b");
    assert_eq!(join("a/", "b"), "a/b");
    assert_eq!(join("", "b"), "b");
    assert_eq!(join("a", "/b"), "/b");
}

#[test]
fn path_builder_lays_out_an_asset() {
    let p = QuotickPathBuilder::new("SYMBL", "./test_data/qt-db");
    assert_eq!(p.base_path(), "./test_data/qt-db");
    assert_eq!(p.asset_path(), "./test_data/qt-db/SYMBL");
    assert_eq!(p.epoch_path(), "./test_data/qt-db/SYMBL/epoch");
    assert_eq!(p.frame_backing_file(7), "./test_data/qt-db/SYMBL/epoch/7.qtf");
    assert_eq!(p.index_backing_file(7), "./test_data/qt-db/SYMBL/epoch/7.qti");
    assert_eq!(p.epoch_index_backing_file(), "./test_data/qt-db/SYMBL/epochs.qtf");
}
