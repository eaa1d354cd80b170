use mkfs_xfs::cli::report::report;
use mkfs_xfs::cli::{params, parse_bool, parse_size, parse_uuid, subopts, Options};
use mkfs_xfs::error::Error;
use mkfs_xfs::geometry::{Geometry, Params};

fn opts() -> Options {
    Options { block: vec![], data: vec![], inode: vec![], meta: vec![], sector: vec![], label: None }
}

#[test]
fn sizes_take_binary_suffixes() {
    assert_eq!(parse_size("4096").unwrap(), 4096);
    assert_eq!(parse_size("64k").unwrap(), 64 << 10);
    assert_eq!(parse_size(" 512M ").unwrap(), 512 << 20);
    assert_eq!(parse_size("16g").unwrap(), 16 << 30);
    assert_eq!(parse_size("2t").unwrap(), 2 << 40);
    assert_eq!(parse_size("1p").unwrap(), 1 << 50);
}

#[test]
fn bad_sizes_are_refused() {
    assert!(matches!(parse_size("x"), Err(Error::InvalidParams(_))));
    assert!(matches!(parse_size(""), Err(Error::InvalidParams(_))));
    assert!(matches!(parse_size("k"), Err(Error::InvalidParams(_))));
    assert!(matches!(parse_size("16777216t"), Err(Error::InvalidParams(_))));
    assert!(matches!(parse_size("99999999999999999999"), Err(Error::InvalidParams(_))));
}

#[test]
fn booleans_are_zero_or_one() {
    assert_eq!(parse_bool("1").unwrap(), true);
    assert_eq!(parse_bool("0").unwrap(), false);
    assert!(matches!(parse_bool("yes"), Err(Error::InvalidParams(_))));
}

#[test]
fn suboptions_split_on_commas() {
    let list = vec!["size=4096,agcount=4".to_string(), "".to_string(), "sparse,,x=".to_string()];
    let got = subopts(&list);
    let want: Vec<(String, String)> = vec![
        ("size".into(), "4096".into()),
        ("agcount".into(), "4".into()),
        ("sparse".into(), "1".into()),
        ("x".into(), "".into()),
    ];
    assert_eq!(got, want);
}

#[test]
fn uuids_parse_in_any_form_the_uuid_crate_takes() {
    let u = parse_uuid("12345678-1234-5678-9abc-123456789abc").unwrap();
    assert_eq!(u, [0x12, 0x34, 0x56, 0x78, 0x12, 0x34, 0x56, 0x78, 0x9a, 0xbc, 0x12, 0x34, 0x56, 0x78, 0x9a, 0xbc]);
    assert!(matches!(parse_uuid("not-a-uuid"), Err(Error::InvalidParams(_))));
}

#[test]
fn options_become_params() {
    let mut o = opts();
    o.block = vec!["size=2k".into()];
    o.data = vec!["size=1g,agcount=7".into()];
    o.inode = vec!["size=1024,maxpct=10,sparse=0".into()];
    o.meta = vec!["crc=1,finobt=0,uuid=12345678-1234-5678-9abc-123456789abc".into()];
    o.sector = vec!["size=4096".into()];
    o.label = Some("golden".into());
    let p = params(&o).unwrap();
    assert_eq!(p.block_size, Some(2048));
    assert_eq!(p.size, Some(1 << 30));
    assert_eq!(p.agcount, Some(7));
    assert_eq!(p.inode_size, Some(1024));
    assert_eq!(p.imaxpct, Some(10));
    assert!(!p.features.sparse);
    assert!(!p.features.finobt);
    assert!(p.features.rmapbt);
    assert_eq!(p.sector_size, Some(4096));
    assert_eq!(p.label.as_deref(), Some("golden"));
    assert_eq!(p.uuid.unwrap()[15], 0xbc);
}

#[test]
fn unknown_options_are_refused() {
    let mut o = opts();
    o.block = vec!["log=12".into()];
    assert!(matches!(params(&o), Err(Error::InvalidParams(_))));
    let mut o = opts();
    o.meta = vec!["crc=0".into()];
    assert!(matches!(params(&o), Err(Error::InvalidParams(_))));
    let mut o = opts();
    o.data = vec!["su=4k".into()];
    assert!(matches!(params(&o), Err(Error::InvalidParams(_))));
    let mut o = opts();
    o.inode = vec!["sparse=2".into()];
    assert!(matches!(params(&o), Err(Error::InvalidParams(_))));
}

#[test]
fn the_summary_is_laid_out_as_mkfs_xfs_prints_it() {
    let g = Geometry::compute(&Params::new(), 512 << 20, 512, 512).unwrap();
    let text = report(&g, "fs.img");
    let lines: Vec<&str> = text.lines().collect();
    assert_eq!(lines.len(), 8);
    assert_eq!(lines[0], "meta-data=fs.img                 isize=512    agcount=4, agsize=32768 blks");
    assert_eq!(lines[1], "         =                       sectsz=512   attr=2, projid32bit=1");
    assert_eq!(lines[2], "         =                       crc=1        finobt=1, sparse=1, rmapbt=1");
    assert_eq!(lines[3], "         =                       reflink=1    bigtime=1 inobtcount=1 nrext64=1");
    assert_eq!(lines[4], "data     =                       bsize=4096   blocks=131072, imaxpct=25");
    assert_eq!(lines[5], "naming   =version 2              bsize=4096   ascii-ci=0, ftype=1, parent=0");
    assert!(lines[6].starts_with("log      =internal log           bsize=4096   blocks="));
    assert_eq!(lines[7], "         =                       sectsz=512   sunit=0 blks, lazy-count=1");
}

#[test]
fn refusals_name_what_was_refused() {
    let msg = |e: Error| match e {
        Error::InvalidParams(m) => m,
        other => panic!("unexpected {other:?}"),
    };
    assert_eq!(msg(parse_size("  12X ").unwrap_err()), "bad size \"12x\"");
    let mut o = opts();
    o.meta = vec!["foo=bar".to_string()];
    assert_eq!(msg(params(&o).unwrap_err()), "-m foo=bar is not supported");
    let mut o = opts();
    o.data = vec!["agcount=x4".to_string()];
    assert_eq!(msg(params(&o).unwrap_err()), "invalid digit found in string");
    let mut o = opts();
    o.inode = vec!["maxpct=300".to_string()];
    assert_eq!(msg(params(&o).unwrap_err()), "number too large to fit in target type");
}
