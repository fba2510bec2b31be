use ironplayer::net::fec::{
    fec_ports, FecAxis, FecHeader, FecMatrix, FecMatrixHint, FEC_HEADER_LEN,
};

fn header(d: bool, offset: u8, na: u8) -> [u8; FEC_HEADER_LEN] {
    let mut h = [0u8; FEC_HEADER_LEN];
    h[0..2].copy_from_slice(&1_000u16.to_be_bytes());
    h[2..4].copy_from_slice(&1_316u16.to_be_bytes());
    h[4] = 0x21;
    h[5..8].copy_from_slice(&[0x00, 0x00, 0x07]);
    h[8..12].copy_from_slice(&0x0001_0000u32.to_be_bytes());
    h[12] = if d { 0x40 } else { 0x00 };
    h[13] = offset;
    h[14] = na;
    h[15] = 0;
    h
}

#[test]
fn spec_probe_ip_031_parses_every_fec_header_field() {
    let h = FecHeader::parse(&header(false, 8, 5)).expect("header válido");
    assert_eq!(h.sn_base, 1_000);
    assert_eq!(h.length_recovery, 1_316);
    assert!(!h.extension);
    assert_eq!(h.pt_recovery, 33);
    assert_eq!(h.mask, 7);
    assert_eq!(h.ts_recovery, 0x0001_0000);
    assert!(!h.d);
    assert_eq!(h.offset, 8);
    assert_eq!(h.na, 5);
    assert_eq!(h.index, 0);
    assert_eq!(h.sn_base_ext, 0);

    assert!(FecHeader::parse(&[0u8; 15]).is_none());
    assert!(FecHeader::parse(&[]).is_none());
}

#[test]
fn spec_probe_ip_032_derives_l_and_d_from_each_axis() {
    let column = FecHeader::parse(&header(false, 8, 5)).expect("coluna");
    assert_eq!(column.axis(), FecAxis::Column);
    assert_eq!(
        column.matrix_hint(),
        FecMatrixHint {
            l: Some(8),
            d: Some(5)
        }
    );

    let row = FecHeader::parse(&header(true, 1, 8)).expect("linha");
    assert_eq!(row.axis(), FecAxis::Row);
    assert_eq!(row.axis().label(), "linha");
    assert_eq!(
        row.matrix_hint(),
        FecMatrixHint {
            l: Some(8),
            d: None
        }
    );
}

#[test]
fn spec_probe_ip_034_matrix_completes_from_both_streams() {
    let mut m = FecMatrix::default();
    assert_eq!(m.lxd(), None);
    assert_eq!(m.label(), "—×—");

    m.absorb(
        FecHeader::parse(&header(true, 1, 8))
            .expect("linha")
            .matrix_hint(),
    );
    assert_eq!(m.l, Some(8));
    assert_eq!(m.lxd(), None, "sem o fluxo de coluna, D é desconhecido");

    m.absorb(
        FecHeader::parse(&header(false, 8, 5))
            .expect("coluna")
            .matrix_hint(),
    );
    assert_eq!(m.lxd(), Some(40), "L=8 · D=5 ⇒ 40, dentro do perfil");
    assert_eq!(m.label(), "8×5");

    let mut big = FecMatrix::default();
    big.absorb(
        FecHeader::parse(&header(false, 20, 8))
            .expect("coluna")
            .matrix_hint(),
    );
    assert_eq!(big.lxd(), Some(160));
}

#[test]
fn spec_probe_ip_030_fec_ports_derive_from_the_feed_port() {
    assert_eq!(fec_ports(50_000, [2, 4]), Some((50_002, 50_004)));
    assert_eq!(fec_ports(65_534, [2, 4]), None);
}
