use mio_uds::abi::{Abi, LenWidth};
use mio_uds::ancillary::UCred;
use mio_uds::cmsg::{Cmsg, CmsgData, Malformed};
use mio_uds::wire::Endian;

fn linux64() -> Abi {
    Abi {
        order: Endian::Little,
        len_width: LenWidth::Eight,
        sol_socket: 1,
        scm_rights: 1,
        scm_credentials: 2,
    }
}

fn big32() -> Abi {
    Abi {
        order: Endian::Big,
        len_width: LenWidth::Four,
        sol_socket: 0xffff,
        scm_rights: 1,
        scm_credentials: 2,
    }
}

#[test]
fn add_three_fd() {
    let mut cmsg = Cmsg::new(linux64());
    cmsg.add_fds_raw(&[1, 2, 3]);

    assert_eq!(
        cmsg.as_slice(),
        &[
            28, 0, 0, 0, 0, 0, 0, 0, // len
            1, 0, 0, 0, // level
            1, 0, 0, 0, // type
            // fds
            1, 0, 0, 0, 2, 0, 0, 0, 3, 0, 0, 0
        ][..]
    );
    assert_eq!(cmsg.len(), 28);
}

#[test]
fn add_three_fd_on_this_host() {
    let mut cmsg = Cmsg::default();
    cmsg.add_fds_raw(&[1, 2, 3]);
    let abi = cmsg.abi();
    assert_eq!(cmsg.len(), abi.header_size() + 12);
    if abi == linux64() {
        assert_eq!(
            cmsg.as_slice(),
            &[
                28, 0, 0, 0, 0, 0, 0, 0, 1, 0, 0, 0, 1, 0, 0, 0, 1, 0, 0, 0, 2, 0, 0, 0, 3, 0, 0,
                0
            ][..]
        );
    }
    let mut again = Cmsg::new(abi);
    again.add_fds_raw(&[1, 2, 3]);
    assert_eq!(cmsg, again);
}

#[test]
fn iter() {
    let mut cmsg = Cmsg::default();
    cmsg.add_fds_raw(&[1, 2]);

    let mut iterator = cmsg.iter();

    assert_eq!(Some(Ok(CmsgData::Fd(vec![1, 2]))), iterator.next());
    assert_eq!(None, iterator.next());
}

#[test]
fn big_endian_narrow_length() {
    let mut cmsg = Cmsg::new(big32());
    cmsg.add_fds_raw(&[1, 0x0102_0304, -2]);
    assert_eq!(
        cmsg.as_slice(),
        &[
            0, 0, 0, 24, // len
            0, 0, 0xff, 0xff, // level
            0, 0, 0, 1, // type
            0, 0, 0, 1, 1, 2, 3, 4, 0xff, 0xff, 0xff, 0xfe
        ][..]
    );
    let mut iterator = cmsg.iter();
    assert_eq!(Some(Ok(CmsgData::Fd(vec![1, 0x0102_0304, -2]))), iterator.next());
    assert_eq!(None, iterator.next());
}

#[test]
fn little_endian_is_not_big_endian() {
    let mut little = Cmsg::new(linux64());
    little.add_fds_raw(&[0x0102_0304]);
    assert_eq!(&little.as_slice()[16..], &[4, 3, 2, 1][..]);

    let mut big = Cmsg::new(Abi { order: Endian::Big, ..linux64() });
    big.add_fds_raw(&[0x0102_0304]);
    assert_eq!(&big.as_slice()[..8], &[0, 0, 0, 0, 0, 0, 0, 20][..]);
    assert_eq!(&big.as_slice()[16..], &[1, 2, 3, 4][..]);
}

#[test]
fn round_trip_of_many_lengths() {
    for abi in [linux64(), big32(), Abi::host()] {
        for n in 0..40 {
            let fds: Vec<i32> = (0..n).map(|i| i * 7 - 3).collect();
            let mut cmsg = Cmsg::new(abi);
            cmsg.add_fds_raw(&fds);
            assert_eq!(cmsg.len(), abi.header_size() + 4 * fds.len());
            let mut iterator = cmsg.iter();
            assert_eq!(Some(Ok(CmsgData::Fd(fds.clone()))), iterator.next());
            assert_eq!(None, iterator.next());
            assert_eq!(cmsg.data().unwrap().fds_in, fds);
        }
    }
}

#[test]
fn round_trip_of_extreme_values() {
    let fds = vec![i32::MIN, -1, 0, 1, i32::MAX];
    for abi in [linux64(), big32()] {
        let mut cmsg = Cmsg::new(abi);
        cmsg.add_fds_raw(&fds);
        assert_eq!(Some(Ok(CmsgData::Fd(fds.clone()))), cmsg.iter().next());
    }
}

#[test]
fn no_descriptors_is_a_header_alone() {
    let mut cmsg = Cmsg::new(linux64());
    cmsg.add_fds_raw(&[]);
    assert_eq!(cmsg.as_slice(), &[16, 0, 0, 0, 0, 0, 0, 0, 1, 0, 0, 0, 1, 0, 0, 0][..]);
    let mut iterator = cmsg.iter();
    assert_eq!(Some(Ok(CmsgData::Fd(vec![]))), iterator.next());
    assert_eq!(None, iterator.next());
}

#[test]
fn empty_fds_reserves_zeroed_slots() {
    let mut cmsg = Cmsg::new(linux64());
    cmsg.empty_fds(2);
    assert_eq!(
        cmsg.as_slice(),
        &[24, 0, 0, 0, 0, 0, 0, 0, 1, 0, 0, 0, 1, 0, 0, 0, 0, 0, 0, 0, 0, 0, 0, 0][..]
    );
    assert_eq!(Some(Ok(CmsgData::Fd(vec![0, 0]))), cmsg.iter().next());
}

#[test]
fn add_reserves_and_says_where_the_data_starts() {
    let mut cmsg = Cmsg::new(linux64());
    assert_eq!(cmsg.add(7, 3, 2), 16);
    assert_eq!(
        cmsg.as_slice(),
        &[22, 0, 0, 0, 0, 0, 0, 0, 1, 0, 0, 0, 7, 0, 0, 0, 0, 0, 0, 0, 0, 0][..]
    );
    assert_eq!(cmsg.add(1, 1, 4), 22 + 16);
    assert_eq!(cmsg.len(), 22 + 20);
}

#[test]
fn records_are_appended_never_merged() {
    let mut cmsg = Cmsg::new(linux64());
    cmsg.add_fds_raw(&[5]);
    let first = cmsg.len();
    cmsg.add_fds_raw(&[6, 7]);
    assert_eq!(first, 20);
    assert_eq!(cmsg.len(), 20 + 24);
    let mut iterator = cmsg.iter();
    assert_eq!(Some(Ok(CmsgData::Fd(vec![5]))), iterator.next());
    assert_eq!(Some(Ok(CmsgData::Fd(vec![6, 7]))), iterator.next());
    assert_eq!(None, iterator.next());
    assert_eq!(None, iterator.next());
}

#[test]
fn unknown_type_is_skipped() {
    let mut cmsg = Cmsg::new(linux64());
    cmsg.add(9, 5, 1);
    cmsg.add_fds_raw(&[4, 5]);
    let mut iterator = cmsg.iter();
    assert_eq!(Some(Ok(CmsgData::Fd(vec![4, 5]))), iterator.next());
    assert_eq!(None, iterator.next());
}

#[test]
fn other_level_is_skipped() {
    let mut bytes = vec![20, 0, 0, 0, 0, 0, 0, 0, 6, 0, 0, 0, 1, 0, 0, 0, 9, 0, 0, 0];
    bytes.extend_from_slice(&[20, 0, 0, 0, 0, 0, 0, 0, 1, 0, 0, 0, 1, 0, 0, 0, 8, 0, 0, 0]);
    let cmsg = Cmsg::from_bytes(linux64(), bytes);
    let mut iterator = cmsg.iter();
    assert_eq!(Some(Ok(CmsgData::Fd(vec![8]))), iterator.next());
    assert_eq!(None, iterator.next());
}

#[test]
fn empty_buffer_has_no_records() {
    let cmsg = Cmsg::from_bytes(linux64(), Vec::new());
    assert_eq!(None, cmsg.iter().next());
    assert_eq!(None, Cmsg::default().iter().next());
}

#[test]
fn short_buffer_is_malformed() {
    for n in 1..16 {
        let cmsg = Cmsg::from_bytes(linux64(), vec![0; n]);
        let mut iterator = cmsg.iter();
        assert_eq!(Some(Err(Malformed)), iterator.next());
        assert_eq!(Some(Err(Malformed)), iterator.next());
        assert_eq!(Err(Malformed), cmsg.data());
    }
    for n in 1..12 {
        let cmsg = Cmsg::from_bytes(big32(), vec![0; n]);
        assert_eq!(Some(Err(Malformed)), cmsg.iter().next());
    }
}

#[test]
fn trailing_bytes_are_malformed() {
    let mut cmsg = Cmsg::new(linux64());
    cmsg.add_fds_raw(&[3]);
    let mut bytes = cmsg.as_slice().to_vec();
    bytes.extend_from_slice(&[1, 2, 3]);
    let cmsg = Cmsg::from_bytes(linux64(), bytes);
    let mut iterator = cmsg.iter();
    assert_eq!(Some(Ok(CmsgData::Fd(vec![3]))), iterator.next());
    assert_eq!(Some(Err(Malformed)), iterator.next());
    assert_eq!(Err(Malformed), cmsg.data());
}

#[test]
fn length_below_header_is_malformed() {
    let bytes = vec![15, 0, 0, 0, 0, 0, 0, 0, 1, 0, 0, 0, 1, 0, 0, 0];
    assert_eq!(Some(Err(Malformed)), Cmsg::from_bytes(linux64(), bytes).iter().next());
    let zero = vec![0; 16];
    assert_eq!(Some(Err(Malformed)), Cmsg::from_bytes(linux64(), zero).iter().next());
    let other_level = vec![0, 0, 0, 0, 0, 0, 0, 0, 9, 0, 0, 0, 9, 0, 0, 0];
    assert_eq!(Some(Err(Malformed)), Cmsg::from_bytes(linux64(), other_level).iter().next());
}

#[test]
fn length_past_the_end_is_malformed() {
    let bytes = vec![21, 0, 0, 0, 0, 0, 0, 0, 1, 0, 0, 0, 1, 0, 0, 0, 1, 0, 0, 0];
    assert_eq!(Some(Err(Malformed)), Cmsg::from_bytes(linux64(), bytes).iter().next());
    let huge = vec![0xff, 0xff, 0xff, 0xff, 0xff, 0xff, 0xff, 0xff, 9, 0, 0, 0, 9, 0, 0, 0];
    assert_eq!(Some(Err(Malformed)), Cmsg::from_bytes(linux64(), huge).iter().next());
}

#[test]
fn descriptors_are_whole_groups_of_four_bytes() {
    let bytes = vec![
        23, 0, 0, 0, 0, 0, 0, 0, 1, 0, 0, 0, 1, 0, 0, 0, 7, 0, 0, 0, 9, 9, 9,
    ];
    let cmsg = Cmsg::from_bytes(linux64(), bytes);
    let mut iterator = cmsg.iter();
    assert_eq!(Some(Ok(CmsgData::Fd(vec![7]))), iterator.next());
    assert_eq!(None, iterator.next());
}

#[test]
fn credentials_are_decoded() {
    let bytes = vec![
        28, 0, 0, 0, 0, 0, 0, 0, 1, 0, 0, 0, 2, 0, 0, 0, // header
        0x39, 0x30, 0, 0, // pid 12345
        0xe8, 0x03, 0, 0, // uid 1000
        0xff, 0xff, 0xff, 0xff, // gid
    ];
    let cmsg = Cmsg::from_bytes(linux64(), bytes);
    let mut iterator = cmsg.iter();
    assert_eq!(
        Some(Ok(CmsgData::Cred(UCred { pid: 12345, uid: 1000, gid: u32::MAX }))),
        iterator.next()
    );
    assert_eq!(None, iterator.next());
}

#[test]
fn short_credentials_are_malformed() {
    let bytes = vec![
        27, 0, 0, 0, 0, 0, 0, 0, 1, 0, 0, 0, 2, 0, 0, 0, 1, 0, 0, 0, 2, 0, 0, 0, 3, 0, 0,
    ];
    assert_eq!(Some(Err(Malformed)), Cmsg::from_bytes(linux64(), bytes).iter().next());
}

#[test]
fn as_mut_slice_writes_through() {
    let mut cmsg = Cmsg::new(linux64());
    cmsg.empty_fds(1);
    {
        let bytes = cmsg.as_mut_slice();
        assert_eq!(bytes.len(), 20);
        bytes[16] = 42;
    }
    assert_eq!(cmsg.as_slice()[16], 42);
    assert_eq!(cmsg.len(), 20);
    assert_eq!(Some(Ok(CmsgData::Fd(vec![42]))), cmsg.iter().next());
}

#[test]
fn host_conventions() {
    let abi = Abi::host();
    assert_eq!(abi.len_width.size(), std::mem::size_of::<usize>());
    assert_eq!(abi.header_size(), std::mem::size_of::<usize>() + 8);
    assert_eq!(abi.order == Endian::Little, 1u16.to_ne_bytes() == [1, 0]);
    assert_eq!(abi.sol_socket, libc::SOL_SOCKET);
    assert_eq!(abi.scm_rights, libc::SCM_RIGHTS);
    assert_eq!(abi.scm_credentials, libc::SCM_CREDENTIALS);
    assert_eq!(abi.header_size(), std::mem::size_of::<libc::cmsghdr>());
    assert_eq!(Cmsg::default().abi(), abi);
    assert_eq!(LenWidth::Four.size(), 4);
    assert_eq!(LenWidth::Eight.size(), 8);
}
