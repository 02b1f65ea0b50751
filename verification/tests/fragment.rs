use rand::distributions::Distribution;
use rand::{seq::SliceRandom, Rng};
use std::time::{SystemTime, UNIX_EPOCH};
use tdbtk::error::Error;
use tdbtk::io::uri::URI;
use tdbtk::storage::fragment::{
    get_fragment_name_version, get_fragment_version, Fragment, FragmentNameVersion,
};

struct UUIDChars;

impl Distribution<char> for UUIDChars {
    fn sample<R: Rng + ?Sized>(&self, rng: &mut R) -> char {
        *b"0123456789abcdef".choose(rng).unwrap() as char
    }
}

fn generate_uuid() -> String {
    rand::thread_rng().sample_iter(&UUIDChars).take(32).collect()
}

fn get_now_str() -> String {
    if let Ok(time) = SystemTime::now().duration_since(UNIX_EPOCH) {
        time.as_millis().to_string()
    } else {
        0.to_string()
    }
}

fn generate_v1_name() -> String {
    let ret = "__".to_string() + &generate_uuid() + "_" + &get_now_str();
    if rand::random() {
        ret + "_" + &get_now_str()
    } else {
        ret
    }
}

fn generate_v2_name() -> String {
    "__".to_string() + &get_now_str() + "_" + &get_now_str() + "_" + &generate_uuid()
}

fn generate_v3_name() -> (String, u32) {
    let vsn = rand::random::<u8>();
    let name = "__".to_string()
        + &get_now_str()
        + "_"
        + &get_now_str()
        + "_"
        + &generate_uuid()
        + "_"
        + &vsn.to_string();
    (name, vsn as u32)
}

#[test]
fn fragment_name_version_test() {
    for _ in 1..1000 {
        let name = generate_v1_name();
        assert_eq!(get_fragment_name_version(&name), FragmentNameVersion::One);
        let name = generate_v2_name();
        assert_eq!(get_fragment_name_version(&name), FragmentNameVersion::Two);
        let name = generate_v3_name().0;
        assert_eq!(get_fragment_name_version(&name), FragmentNameVersion::Three);
    }
}

#[test]
fn fragment_version_test() {
    for _ in 1..1000 {
        let name = generate_v1_name();
        assert_eq!(get_fragment_version(&name).unwrap(), 2);
        let name = generate_v2_name();
        assert_eq!(get_fragment_version(&name).unwrap(), 4);
        let (name, vsn) = generate_v3_name();
        assert_eq!(get_fragment_version(&name).unwrap(), vsn);
    }
}

#[test]
fn fragment_version_error() {
    let (name, _) = generate_v3_name();
    let name = name + "blargh";
    assert!(get_fragment_version(&name).is_err())
}

#[test]
fn fixed_names_have_their_forms() {
    let uuid = "0123456789abcdef0123456789abcdef";
    let one = format!("__{}_1700000000000", uuid);
    let two = format!("__1700000000000_1700000000001_{}", uuid);
    let three = format!("__1700000000000_1700000000001_{}_21", uuid);
    assert_eq!(get_fragment_name_version(&one), FragmentNameVersion::One);
    assert_eq!(get_fragment_name_version(&two), FragmentNameVersion::Two);
    assert_eq!(get_fragment_name_version(&three), FragmentNameVersion::Three);
    assert_eq!(get_fragment_name_version(&String::new()), FragmentNameVersion::One);
    assert_eq!(get_fragment_name_version(&"_____".to_string()), FragmentNameVersion::Three);
    assert_eq!(get_fragment_name_version(&format!("_{}", uuid)), FragmentNameVersion::Two);
    assert_eq!(get_fragment_name_version(&format!("{}_", uuid)), FragmentNameVersion::One);
    assert_eq!(get_fragment_version(&one), Ok(2));
    assert_eq!(get_fragment_version(&two), Ok(4));
    assert_eq!(get_fragment_version(&three), Ok(21));
}

#[test]
fn version_of_the_newest_form_is_a_number_of_32_bits() {
    let name = |tail: &str| format!("a_b_c_d_e_{}", tail);
    assert_eq!(get_fragment_version(&name("0")), Ok(0));
    assert_eq!(get_fragment_version(&name("007")), Ok(7));
    assert_eq!(get_fragment_version(&name("+12")), Ok(12));
    assert_eq!(get_fragment_version(&name("4294967295")), Ok(u32::MAX));
    assert_eq!(get_fragment_version(&name("4294967296")), Err(Error::InvalidFragmentName));
    assert_eq!(get_fragment_version(&name("99999999999999999999")), Err(Error::InvalidFragmentName));
    assert_eq!(get_fragment_version(&name("")), Err(Error::InvalidFragmentName));
    assert_eq!(get_fragment_version(&name("+")), Err(Error::InvalidFragmentName));
    assert_eq!(get_fragment_version(&name("-1")), Err(Error::InvalidFragmentName));
    assert_eq!(get_fragment_version(&name("++1")), Err(Error::InvalidFragmentName));
    assert_eq!(get_fragment_version(&name("1 ")), Err(Error::InvalidFragmentName));
    assert_eq!(get_fragment_version(&name("12a")), Err(Error::InvalidFragmentName));
    assert_eq!(get_fragment_version(&name("\u{661}")), Err(Error::InvalidFragmentName));
}

#[test]
fn fragment_takes_its_version_from_the_last_part_of_its_location() {
    let uuid = "0123456789abcdef0123456789abcdef";
    let text = format!("file:///array/__fragments/__1_2_{}_19///", uuid);
    let uri = URI::from_string(&text, "/").unwrap();
    let fragment = Fragment::new(&uri).unwrap();
    assert_eq!(fragment.format_version, 19);
    assert_eq!(fragment.uri, uri);
    let old = URI::from_string("file:///array/__abc_1", "/").unwrap();
    assert_eq!(Fragment::new(&old).unwrap().format_version, 2);
    let bad = URI::from_string("file:///array/a_b_c_d_e_x", "/").unwrap();
    assert!(matches!(Fragment::new(&bad), Err(Error::InvalidFragmentName)));
}
