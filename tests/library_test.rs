use std::cmp::Ordering;

use fmri::compare::Compare;
use fmri::error::FmriError;
use fmri::helpers::remove_first_and_last_characters;
use fmri::publisher::Publisher;
use fmri::version::segment::Segment;
use fmri::version::segments::Segments;
use fmri::version::Version;
use fmri::{FMRIList, FMRI};

fn round_trip(raw: &str) {
    let first = FMRI::parse_raw(raw).unwrap();
    let rendered = first.as_string();
    let second = FMRI::parse_raw(&rendered).unwrap();
    assert_eq!(first, second);
    assert_eq!(second.as_string(), rendered);
}

#[test]
fn round_trip_examples() {
    round_trip("fmri=pkg://publisher/test/test@1.6.34-2018.0.0.0");
    round_trip("pkg:/audio/audacity@2.3.2,5.11-2022.0.0.1");
    round_trip("pkg://solaris/system/library@0.5.11-0.175.1.0.0.2.1:20120919T082311Z");
    round_trip("test@1,1-1:20220913T082027Z");
    round_trip("pkg:/image/library/libpng16");
    round_trip("/a/b/@01.002:ts");
}

#[test]
fn rendering_is_canonical() {
    let f = FMRI::parse_raw("fmri=test@01.002,5-0.1:20220913T082027Z").unwrap();
    assert_eq!(f.as_string(), "pkg:/test@1.2,5-0.1:20220913T082027Z");
    let f = FMRI::parse_raw("pkg://pub/x/y//").unwrap();
    assert_eq!(f.as_string(), "pkg://pub/x/y");
}

#[test]
fn segment_order_examples() {
    let s = |t: &str| Segment::from_string(t).unwrap();
    assert_eq!(s("1.1").compare(&s("1.0")), Ordering::Greater);
    assert_eq!(s("1.1").compare(&s("1.0.1")), Ordering::Greater);
    assert_eq!(s("1.1.1").compare(&s("1.1")), Ordering::Greater);
    assert_eq!(s("1.1").compare(&s("1.1.1")), Ordering::Less);
    assert_eq!(s("1.0").compare(&s("1.00")), Ordering::Equal);
    assert_eq!(s("1.1.0").compare(&s("1.1")), Ordering::Greater);
}

#[test]
fn segment_parsing() {
    assert_eq!(Segment::from_string("1.2.3").unwrap().get(), vec![1, 2, 3]);
    assert_eq!(Segment::from_string("01.002").unwrap().as_string(), "1.2");
    assert_eq!(Segment::from_string("2147483647").unwrap().get(), vec![2147483647]);
    assert_eq!(Segment::from_string("2147483648"), Err(FmriError::InvalidSegment));
    assert_eq!(Segment::from_string(""), Err(FmriError::InvalidSegment));
    assert_eq!(Segment::from_string("1..2"), Err(FmriError::InvalidSegment));
    assert_eq!(Segment::from_string("1."), Err(FmriError::InvalidSegment));
    assert_eq!(Segment::from_string(".32.4"), Err(FmriError::InvalidSegment));
    assert_eq!(Segment::from_string("3.a.4"), Err(FmriError::InvalidSegment));
    assert_eq!(Segment::from_string("-1"), Err(FmriError::InvalidSegment));
    assert_eq!(Segment::from_string("+1"), Err(FmriError::InvalidSegment));
}

#[test]
fn segment_render_negative() {
    let mut s = Segment::from_string("4.5").unwrap();
    s.get_ref_mut()[1] = -7;
    assert_eq!(s.as_string(), "4.-7");
}

#[test]
fn version_level_precedence() {
    let v = |t: &str| Version::new(t.to_owned()).unwrap();
    assert_eq!(
        v("2.1.1,5.11-2018.0.0.0:T1").compare(&v("2.1.1,5.11-2017.0.0.0:T2")),
        Ordering::Greater
    );
    assert_eq!(
        v("2.1.1-2018.0.0.0").compare(&v("2.1.1,5.11-2017.0.0.0")),
        Ordering::Greater
    );
    assert_eq!(v("1:T1").compare(&v("1:T2")), Ordering::Equal);
    assert_ne!(v("1:T1"), v("1:T2"));
    assert_eq!(v("1,2").compare(&v("1-3")), Ordering::Equal);
    assert_eq!(Version::new("test".to_owned()), Version::new("test".to_owned()));
    assert_eq!(Version::new("test".to_owned()), Err(FmriError::InvalidSegment));
    assert_eq!(
        FMRI::parse_raw("test").unwrap().get_version(),
        FMRI::parse_raw("test").unwrap().get_version()
    );
}

#[test]
fn version_slots() {
    let v = Version::new("2.1.1,5.11-2017.0.0.0:20171212T185746Z".to_owned()).unwrap();
    assert_eq!(v.as_string(), "@2.1.1,5.11-2017.0.0.0:20171212T185746Z");
    let v = Version::new("@1:ab-2".to_owned()).unwrap();
    assert_eq!(v.as_string(), "@1-2:ab");
    assert_eq!(Version::new("@1:a,b".to_owned()), Err(FmriError::InvalidSegment));
    assert_eq!(Version::new("".to_owned()), Err(FmriError::InvalidSegment));
    assert_eq!(Version::new("1,x".to_owned()), Err(FmriError::InvalidSegment));
    assert_eq!(
        Segments::get_segment_from_string("@1:20171212T185746Z-3".to_owned(), ':').unwrap(),
        Segments::Timestamp("20171212T185746Z".to_owned())
    );
    assert_eq!(
        Segments::get_segment_from_string("@1".to_owned(), 'x').unwrap(),
        Segments::Absent
    );
    assert_eq!(
        Segments::BuildVersion(Segment::from_string("5.11").unwrap()).as_string(),
        ",5.11"
    );
}

#[test]
fn publisher_validation() {
    assert_eq!(Publisher::new("publ@sher".to_owned()), Err(FmriError::InvalidCharacter));
    assert_eq!(
        Publisher::new("//publisher//".to_owned()).unwrap().get_as_ref_string(),
        "publisher"
    );
    assert_eq!(
        Publisher::parse_publisher_from_raw_fmri("pkg://publisher".to_owned()),
        Err(FmriError::MalformedPublisherClause)
    );
    assert_eq!(
        Publisher::parse_publisher_from_raw_fmri("a/pkg://b/c".to_owned()),
        Err(FmriError::MalformedPublisherClause)
    );
    assert_eq!(
        Publisher::parse_publisher_from_raw_fmri("pkg://p@q/c".to_owned()),
        Err(FmriError::InvalidCharacter)
    );
}

#[test]
fn identity_independent_of_order() {
    let a = FMRI::parse_raw("pkg:/a@1.0").unwrap();
    let b = FMRI::parse_raw("pkg://other/b@1.0").unwrap();
    assert_eq!(a.compare(&b), Ordering::Equal);
    assert_eq!(a.partial_cmp(&b), Some(Ordering::Equal));
    assert!(!a.package_name_eq(&b));
    let c = FMRI::parse_raw("pkg://other/a@2.0").unwrap();
    assert!(a.package_name_eq(&c));
    assert_eq!(a.compare(&c), Ordering::Less);
    let d = FMRI::parse_raw("pkg:/a").unwrap();
    assert_eq!(c.compare(&d), Ordering::Equal);
}

#[test]
fn end_to_end() {
    let f = FMRI::parse_raw("fmri=pkg://publisher/test/test@1.6.34-2018.0.0.0").unwrap();
    assert_eq!(f.get_publisher_as_ref_string().unwrap(), "publisher");
    assert_eq!(f.get_package_name_as_ref_string(), "test/test");
    let v = f.get_version_ref().clone().unwrap();
    assert_eq!(v, Version::new("@1.6.34-2018.0.0.0".to_owned()).unwrap());
    assert_eq!(
        Segments::get_segment_from_string(v.as_string(), '@').unwrap(),
        Segments::ComponentVersion(Segment::from_string("1.6.34").unwrap())
    );
    assert_eq!(
        Segments::get_segment_from_string(v.as_string(), ',').unwrap(),
        Segments::Absent
    );
    assert_eq!(
        Segments::get_segment_from_string(v.as_string(), '-').unwrap(),
        Segments::BranchVersion(Segment::from_string("2018.0.0.0").unwrap())
    );
    assert_eq!(
        Segments::get_segment_from_string(v.as_string(), ':').unwrap(),
        Segments::Absent
    );
    assert_eq!(f.as_string(), "pkg://publisher/test/test@1.6.34-2018.0.0.0");
}

#[test]
fn parse_errors() {
    assert_eq!(FMRI::parse_raw("pkg:/"), Err(FmriError::EmptyPackageName));
    assert_eq!(FMRI::parse_raw("fmri=pkg://p/@1"), Err(FmriError::EmptyPackageName));
    assert_eq!(FMRI::parse_raw("pkg:///x"), Err(FmriError::MalformedPublisherClause));
    assert_eq!(FMRI::parse_raw("pkg://publisher"), Err(FmriError::MalformedPublisherClause));
    assert_eq!(FMRI::parse_raw("x/pkg://p/y"), Err(FmriError::MalformedPublisherClause));
    assert_eq!(FMRI::parse_raw("pkg:/x@1.a"), Err(FmriError::InvalidSegment));
    assert_eq!(FMRI::parse_raw("pkg:/x@"), Err(FmriError::InvalidSegment));
    assert_eq!(
        FMRI::new_from_package_name("a@b".to_owned()),
        Err(FmriError::InvalidCharacter)
    );
    assert_eq!(FMRI::new_from_package_name("//".to_owned()), Err(FmriError::EmptyPackageName));
}

#[test]
fn prefixes_stripped_once() {
    let f = FMRI::parse_raw("pkg:/pkg:/x").unwrap();
    assert_eq!(f.get_package_name_as_string(), "pkg:/x");
    let f = FMRI::parse_raw("fmri=fmri=x").unwrap();
    assert_eq!(f.get_package_name_as_string(), "fmri=x");
    assert_eq!(
        FMRI::parse_raw("fmri=fmri=pkg://a/b"),
        Err(FmriError::MalformedPublisherClause)
    );
    let p = Publisher::parse_publisher_from_raw_fmri("pkg://pkg://a/b".to_owned())
        .unwrap()
        .unwrap();
    assert_eq!(p.get_as_string(), "pkg:");
}

#[test]
fn field_changes() {
    let mut f = FMRI::new_from_package_name("/web/server/".to_owned()).unwrap();
    assert_eq!(f.get_package_name_as_ref_string(), "web/server");
    assert!(!f.has_publisher());
    assert!(!f.has_version());
    assert_eq!(f.get_version_as_string(), None);
    f.change_publisher(Publisher::new("solaris".to_owned()).unwrap());
    f.change_version(Version::new("1.2".to_owned()).unwrap());
    assert!(f.has_publisher());
    assert_eq!(f.get_version_as_string().unwrap(), "@1.2");
    assert_eq!(f.as_string(), "pkg://solaris/web/server@1.2");
    f.remove_version().remove_publisher();
    assert_eq!(f.as_string(), "pkg:/web/server");
    f.get_package_name_as_ref_mut_string().push_str("/x");
    assert_eq!(f.as_string(), "pkg:/web/server/x");
    *f.get_version_ref_mut() = Some(Version::new("3".to_owned()).unwrap());
    *f.get_publisher_ref_mut() = Some(Publisher::new("p".to_owned()).unwrap());
    assert_eq!(f.as_string(), "pkg://p/web/server/x@3");
}

#[test]
fn trimming() {
    assert_eq!(remove_first_and_last_characters("//a/b//", '/'), "a/b");
    assert_eq!(remove_first_and_last_characters("////", '/'), "");
    assert_eq!(remove_first_and_last_characters("", '/'), "");
    let mut p = Publisher::new("x".to_owned()).unwrap();
    p.get_as_ref_mut_string().push('y');
    assert_eq!(p.get_as_string(), "xy");
}

#[test]
fn fmri_list() {
    let mut list = FMRIList::new();
    assert!(list.is_empty());
    list.add(FMRI::parse_raw("pkg:/a@1").unwrap());
    list.add(FMRI::parse_raw("pkg://p/b@2").unwrap());
    assert_eq!(list.len(), 2);
    assert!(!list.is_empty());
    assert!(list.contains(&FMRI::parse_raw("pkg://q/a@5").unwrap()));
    assert!(!list.contains(&FMRI::parse_raw("pkg:/c").unwrap()));
    assert_eq!(list.as_string(), "pkg:/a@1, pkg://p/b@2");
    assert_eq!(list.get_ref().len(), 2);
    list.get_ref_mut().pop();
    assert_eq!(list.clone().get().len(), 1);
    let other = FMRIList::from(vec![FMRI::parse_raw("pkg:/a@1").unwrap()]);
    assert_eq!(other, list);
    assert_eq!(FMRIList::default().len(), 0);
}

#[test]
fn round_trip_prefixed_name() {
    let first = FMRI::parse_raw("/pkg:/x").unwrap();
    assert_eq!(first.get_package_name_as_ref_string(), "pkg:/x");
    assert_eq!(first.as_string(), "pkg:/pkg:/x");
    let second = FMRI::parse_raw(&first.as_string()).unwrap();
    assert_eq!(second, first);
    round_trip("fmri=fmri=x");
}

#[test]
fn publisher_rendering() {
    assert_eq!(Publisher::new("/solaris/".to_owned()).unwrap().as_string(), "pkg://solaris/");
}

#[test]
fn segment_try_from_string() {
    assert_eq!(Segment::try_from("1.2".to_owned()).unwrap().get(), vec![1, 2]);
    assert_eq!(Segment::try_from("1.x".to_owned()), Err(FmriError::InvalidSegment));
    assert_eq!(Segment::try_from("3.a.4"), Err(FmriError::InvalidSegment));
}
