use nalarch::i18n::Lang;
use nalarch::theme::human_size;

#[test]
fn sizes_read_in_binary_units() {
    assert_eq!(human_size(Lang::En, 0), "0 B");
    assert_eq!(human_size(Lang::En, 512), "512 B");
    assert_eq!(human_size(Lang::En, 2048), "2.0 KiB");
    assert_eq!(human_size(Lang::En, -1536), "-1.5 KiB");
}
