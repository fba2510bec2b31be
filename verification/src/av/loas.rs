use vstd::prelude::*;

verus! {

/// Whether a LOAS frame header, with its 11-bit sync word, starts `data`.
pub open spec fn has_sync(data: Seq<u8>) -> bool {
    data.len() >= 3 && data[0] == 0x56 && data[1] / 32 == 7
}

/// The size of the LOAS frame that starts `data`: three header bytes and the
/// 13-bit length in them.
pub open spec fn frame_size(data: Seq<u8>) -> int {
    3 + data[1] % 32 * 256 + data[2]
}

/// The LOAS frames in `data`: bytes in front of a sync word are skipped, and a
/// frame that is cut short ends the search.
pub open spec fn loas_frames(data: Seq<u8>) -> Seq<Seq<u8>>
    decreases data.len(),
{
    if data.len() < 3 {
        Seq::empty()
    } else if has_sync(data) {
        if frame_size(data) <= data.len() {
            seq![data.take(frame_size(data))] + loas_frames(data.skip(frame_size(data)))
        } else {
            Seq::empty()
        }
    } else {
        loas_frames(data.skip(1))
    }
}

/// Splits an AAC LATM payload into its LOAS frames; empty where no complete
/// frame is found.
pub fn split_loas_frames(data: &[u8]) -> (r: Vec<&[u8]>)
    ensures
        r@.map_values(|f: &[u8]| f@) == loas_frames(data@),
{
    let mut frames: Vec<&[u8]> = Vec::new();
    let mut pos: usize = 0;
    assert(data@.skip(0) =~= data@);
    assert(frames@.map_values(|f: &[u8]| f@) =~= Seq::<Seq<u8>>::empty());
    assert(frames@.map_values(|f: &[u8]| f@) + loas_frames(data@) =~= loas_frames(data@));
    while pos < data.len() && data.len() - pos >= 3
        invariant
            pos <= data@.len(),
            frames@.map_values(|f: &[u8]| f@) + loas_frames(data@.skip(pos as int))
                == loas_frames(data@),
        decreases data@.len() - pos,
    {
        let ghost rest = data@.skip(pos as int);
        let (b0, b1, b2): (u8, u8, u8) = (data[pos], data[pos + 1], data[pos + 2]);
        assert(b1 >> 5 == b1 / 32) by (bit_vector);
        assert(b1 & 0x1F == b1 % 32) by (bit_vector);
        if b0 == 0x56 && (b1 >> 5) == 7 {
            let size: usize = 3 + (b1 & 0x1F) as usize * 256 + b2 as usize;
            assert(size == frame_size(rest));
            if size <= data.len() - pos {
                let end: usize = pos + size;
                let frame = vstd::slice::slice_subrange(data, pos, end);
                assert(frame@ =~= rest.take(size as int));
                assert(rest.skip(size as int) =~= data@.skip(end as int));
                let ghost before = frames@.map_values(|f: &[u8]| f@);
                frames.push(frame);
                assert(frames@.map_values(|f: &[u8]| f@) =~= before.push(frame@));
                pos = end;
                assert(frames@.map_values(|f: &[u8]| f@) + loas_frames(data@.skip(pos as int))
                    =~= before + loas_frames(rest));
            } else {
                assert(loas_frames(rest) =~= Seq::<Seq<u8>>::empty());
                assert(frames@.map_values(|f: &[u8]| f@) =~= loas_frames(data@));
                return frames;
            }
        } else {
            assert(rest.skip(1) =~= data@.skip(pos + 1));
            pos = pos + 1;
        }
    }
    assert(frames@.map_values(|f: &[u8]| f@) =~= loas_frames(data@));
    frames
}

/// The packets that an AAC LATM payload is decoded in: its frames, or all of
/// it where none is found.
pub open spec fn packets_of(data: Seq<u8>) -> Seq<Seq<u8>> {
    if loas_frames(data).len() == 0 {
        seq![data]
    } else {
        loas_frames(data)
    }
}

/// Cuts an AAC LATM payload into packets for the decoder.
pub fn latm_packets(data: &[u8]) -> (r: Vec<&[u8]>)
    ensures
        r@.map_values(|f: &[u8]| f@) == packets_of(data@),
{
    let frames = split_loas_frames(data);
    let ghost found = frames@.map_values(|f: &[u8]| f@);
    assert(found.len() == frames@.len());
    if frames.len() > 0 {
        return frames;
    }
    let mut whole: Vec<&[u8]> = Vec::new();
    whole.push(data);
    assert(whole@.map_values(|f: &[u8]| f@) =~= seq![data@]);
    whole
}

/// Splitting frames that were put one behind the other gives them back.
pub proof fn law_concatenated_frames_are_split(frames: Seq<Seq<u8>>)
    requires
        forall|i: int|
            0 <= i < frames.len() ==> has_sync(#[trigger] frames[i]) && frame_size(frames[i])
                == frames[i].len(),
    ensures
        loas_frames(frames.flatten()) == frames,
    decreases frames.len(),
{
    if frames.len() == 0 {
        assert(frames.flatten() =~= Seq::<u8>::empty());
        assert(frames =~= Seq::<Seq<u8>>::empty());
    } else {
        let first = frames.first();
        let rest = frames.drop_first();
        assert(has_sync(frames[0]));
        assert forall|i: int| 0 <= i < rest.len() implies has_sync(#[trigger] rest[i])
            && frame_size(rest[i]) == rest[i].len() by {
            assert(rest[i] == frames[i + 1]);
        }
        law_concatenated_frames_are_split(rest);
        let all = frames.flatten();
        assert(all =~= first + rest.flatten());
        assert(frame_size(all) == first.len());
        assert(all.take(first.len() as int) =~= first);
        assert(all.skip(first.len() as int) =~= rest.flatten());
        assert(seq![first] + rest =~= frames);
    }
}

/// A LOAS frame: the sync word, the length of the payload in 13 bits, and the
/// payload.
pub open spec fn loas_frame(payload: Seq<u8>) -> Seq<u8> {
    seq![0x56u8, (0xE0 + payload.len() as int / 256) as u8, (payload.len() as int % 256) as u8]
        + payload
}

/// A frame that a payload begins with is the first one found, and the others
/// are found behind it.
pub proof fn law_frames_are_found_one_after_another(payload: Seq<u8>, rest: Seq<u8>)
    requires
        payload.len() < 0x2000,
    ensures
        loas_frames(loas_frame(payload) + rest) == seq![loas_frame(payload)] + loas_frames(rest),
        packets_of(loas_frame(payload) + rest) == seq![loas_frame(payload)] + loas_frames(rest),
{
    let frame = loas_frame(payload);
    let all = frame + rest;
    let high = payload.len() as int / 256;
    assert(0 <= high < 32);
    assert(all[0] == 0x56 && all[1] == 0xE0 + high && all[2] == payload.len() as int % 256);
    assert(all[1] / 32 == 7 && all[1] % 32 == high);
    assert(frame_size(all) == frame.len());
    assert(all.take(frame.len() as int) =~= frame);
    assert(all.skip(frame.len() as int) =~= rest);
}

/// A byte that no sync word begins with is passed over.
pub proof fn law_bytes_without_sync_are_passed_over(byte: u8, rest: Seq<u8>)
    requires
        byte != 0x56 || (rest.len() > 0 && rest[0] < 0xE0),
    ensures
        loas_frames(seq![byte] + rest) == loas_frames(rest),
{
    let all = seq![byte] + rest;
    assert(all[0] == byte);
    assert(all.skip(1) =~= rest);
    if rest.len() > 0 {
        assert(all[1] == rest[0]);
    }
    if all.len() < 3 {
        assert(loas_frames(rest) =~= Seq::empty());
    }
}

/// A frame that is cut short ends the search; where no frame was found, all of
/// a payload is one packet.
pub proof fn law_cut_frames_end_the_search(payload: Seq<u8>, cut: int)
    requires
        payload.len() < 0x2000,
        0 <= cut < loas_frame(payload).len(),
    ensures
        loas_frames(loas_frame(payload).take(cut)) == Seq::<Seq<u8>>::empty(),
        packets_of(loas_frame(payload).take(cut)) == seq![loas_frame(payload).take(cut)],
{
    let frame = loas_frame(payload);
    let short = frame.take(cut);
    let high = payload.len() as int / 256;
    assert(0 <= high < 32);
    if cut >= 3 {
        assert(short[0] == 0x56 && short[1] == 0xE0 + high && short[2] == payload.len() as int
            % 256);
        assert(short[1] / 32 == 7 && short[1] % 32 == high);
    }
}

} // verus!
