use sessionizer::label::compress_label;
use sessionizer::STATUS_WIDTH;

fn b(s: &str) -> Vec<u8> {
    s.as_bytes().to_vec()
}

fn label(t: &str, n: &str, w: usize) -> Vec<u8> {
    compress_label(t.as_bytes(), n.as_bytes(), w)
}

#[test]
fn short_type_and_name_are_piped_in_full() {
    assert_eq!(label("session", "proj", 25), b("session|proj"));
}

#[test]
fn exact_fit_keeps_both_fields() {
    // 8 + 16 + 1 = 25: fits the budget exactly.
    assert_eq!(label("dotfiles", "nvim/lua/plugins", 25), b("dotfiles|nvim/lua/plugins"));
}

#[test]
fn slightly_long_name_abbreviates_the_type() {
    // 8 + 22 + 1 = 31 > 25, but 22 + 3 = 25 fits with a two-byte type.
    assert_eq!(label("dotfiles", "nvim/lua/plugins/extra", 25), b("do|nvim/lua/plugins/extra"));
}

#[test]
fn long_name_is_path_abbreviated() {
    // 26-byte name: the type is dropped and the path is abbreviated.
    assert_eq!(label("work", "alpha/beta/gamma/deltaproj", 25), b("a/b/g/deltaproj"));
}

#[test]
fn long_name_falls_back_to_last_segment() {
    // Even abbreviated, 27 bytes is too long; the last segment fits.
    assert_eq!(label("work", "aa/bb/cc/dd/ee/ff/gg/hh/ii/jj/kk/ll/zzz", 25), b("zzz"));
}

#[test]
fn oversized_last_segment_keeps_its_tail() {
    let name = "z".repeat(30);
    assert_eq!(label("work", &name, 25), b(&"z".repeat(21)));
}

#[test]
fn long_name_ignores_the_type_entirely() {
    let name = "abcdefghijklmnopqrstuvwxyz1234";
    assert_eq!(name.len(), 30);
    let with_short_type = label("a", name, 25);
    let with_long_type = label("completely-different-type", name, 25);
    assert_eq!(with_short_type, with_long_type);
}

#[test]
fn unabbreviatable_name_keeps_its_tail_with_no_separator() {
    // A 24-byte slashless name next to a long type: no rule fits, so the
    // label is the name's last 21 bytes.
    assert_eq!(
        label("averyveryverylongcategoryname", "abcdefghijklmnopqrstuvwx", 25),
        b("defghijklmnopqrstuvwx")
    );
}

#[test]
fn labels_never_exceed_the_budget() {
    let cases = [
        ("session", "proj"),
        ("dotfiles", "nvim/lua/plugins/extra"),
        ("work", "alpha/beta/gamma/deltaproj"),
        ("averyveryverylongcategoryname", "abcdefghijklmnopqrstuvwx"),
        ("", ""),
        ("work", "aa/bb/cc/dd/ee/ff/gg/hh/ii/jj/kk/ll/mmmmmmmmmmmmmmmmmmmmmmmmmmmmmm"),
    ];
    for w in 5..40usize {
        for (t, n) in cases.iter() {
            assert!(label(t, n, w).len() <= w);
        }
    }
}

#[test]
fn status_width_is_the_reference_budget() {
    assert_eq!(STATUS_WIDTH, 25);
}
