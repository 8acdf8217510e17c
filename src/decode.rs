//! Reading a received packet: names (with compression pointers), questions and records.
use vstd::prelude::*;
use crate::bytes::{be_value, lemma_be_value_bound, lemma_pow256_16, read_be};
use crate::error::SimpleDnsError;
use crate::header::{header_of, u16_at};
use crate::name::Name;
use crate::packet::{question_image, Question, TYPE_A, TYPE_AAAA, TYPE_SRV};
use crate::name::{labels_wf, labels_wire};
use crate::bytes::{be_encode, lemma_be_round_trip};

verus! {

/// `rest` with the labels `acc` in front, if there is a `rest`.
pub open spec fn prepend(acc: Seq<Seq<u8>>, rest: Option<Seq<Seq<u8>>>) -> Option<Seq<Seq<u8>>> {
    match rest {
        Some(r) => Some(acc + r),
        None => None,
    }
}

/// The labels of the name at `pos` of `s`, following compression pointers;
/// each label or pointer uses one unit of `fuel`.
pub open spec fn name_at(s: Seq<u8>, pos: int, fuel: nat) -> Option<Seq<Seq<u8>>>
    decreases fuel,
{
    if fuel == 0 || pos < 0 || pos >= s.len() {
        None
    } else {
        let l = s[pos] as int;
        if l == 0 {
            Some(Seq::empty())
        } else if l >= 192 {
            if pos + 1 >= s.len() {
                None
            } else {
                name_at(s, (l - 192) * 256 + s[pos + 1], (fuel - 1) as nat)
            }
        } else if l >= 64 || pos + 1 + l > s.len() {
            None
        } else {
            prepend(seq![s.subrange(pos + 1, pos + 1 + l)], name_at(s, pos + 1 + l, (fuel - 1) as nat))
        }
    }
}

/// The name at `pos` of a packet `s`: every step uses up one unit of fuel, and
/// a packet has as many units as bytes.
pub open spec fn packet_name(s: Seq<u8>, pos: int) -> Option<Seq<Seq<u8>>> {
    name_at(s, pos, s.len())
}

/// Where the name written at `pos` ends, not following pointers.
pub open spec fn name_end(s: Seq<u8>, pos: int) -> Option<int>
    decreases s.len() - pos,
{
    if pos < 0 || pos >= s.len() {
        None
    } else {
        let l = s[pos] as int;
        if l == 0 {
            Some(pos + 1)
        } else if l >= 192 {
            if pos + 1 >= s.len() { None } else { Some(pos + 2) }
        } else if l >= 64 || pos + 1 + l > s.len() {
            None
        } else {
            name_end(s, pos + 1 + l)
        }
    }
}

/// What a question says: its name, type and class, and whether the top bit of
/// the class asks for a unicast response.
pub struct QuestionView {
    pub name: Seq<Seq<u8>>,
    pub qtype: u16,
    pub qclass: u16,
    pub unicast_response: bool,
}

/// The question at `pos` of `s` and where the next item starts.
pub open spec fn question_at(s: Seq<u8>, pos: int) -> Option<(QuestionView, int)> {
    match (name_end(s, pos), packet_name(s, pos)) {
        (Some(e), Some(name)) => {
            if e + 4 > s.len() {
                None
            } else {
                let c = u16_at(s, e + 2);
                Some(
                    (
                        QuestionView {
                            name,
                            qtype: u16_at(s, e),
                            qclass: (c % 32768) as u16,
                            unicast_response: c >= 32768,
                        },
                        e + 4,
                    ),
                )
            }
        },
        _ => None,
    }
}

/// What a record's fixed fields say, and where its data lie.
pub struct RecordView {
    pub name: Seq<Seq<u8>>,
    pub rtype: u16,
    pub class: u16,
    pub ttl: u32,
    pub rdata_pos: int,
    pub rdata_len: int,
}

/// The data length that a record type demands, where it demands one.
pub open spec fn rdata_len_ok(rtype: u16, len: int) -> bool {
    &&& rtype == TYPE_A ==> len == 4
    &&& rtype == TYPE_AAAA ==> len == 16
    &&& rtype == TYPE_SRV ==> len >= 7
}

/// The record at `pos` of `s` and where the next item starts.
pub open spec fn record_at(s: Seq<u8>, pos: int) -> Option<(RecordView, int)> {
    match (name_end(s, pos), packet_name(s, pos)) {
        (Some(e), Some(name)) => {
            if e + 10 > s.len() {
                None
            } else {
                let rtype = u16_at(s, e);
                let len = u16_at(s, e + 8) as int;
                if e + 10 + len > s.len() || !rdata_len_ok(rtype, len) {
                    None
                } else {
                    Some(
                        (
                            RecordView {
                                name,
                                rtype,
                                class: u16_at(s, e + 2),
                                ttl: be_value(s.subrange(e + 4, e + 8)) as u32,
                                rdata_pos: e + 10,
                                rdata_len: len,
                            },
                            e + 10 + len,
                        ),
                    )
                }
            }
        },
        _ => None,
    }
}

/// Where `n` questions that start at `pos` end.
pub open spec fn skip_questions(s: Seq<u8>, pos: int, n: nat) -> Option<int>
    decreases n,
{
    if n == 0 {
        Some(pos)
    } else {
        match skip_questions(s, pos, (n - 1) as nat) {
            Some(p) => match name_end(s, p) {
                Some(e) => if e + 4 <= s.len() { Some(e + 4) } else { None },
                None => None,
            },
            None => None,
        }
    }
}

/// The `n` records that start at `pos`, and where they end.
pub open spec fn records(s: Seq<u8>, pos: int, n: nat) -> Option<(Seq<RecordView>, int)>
    decreases n,
{
    if n == 0 {
        Some((Seq::empty(), pos))
    } else {
        match records(s, pos, (n - 1) as nat) {
            Some((rs, p)) => match record_at(s, p) {
                Some((r, q)) => Some((rs.push(r), q)),
                None => None,
            },
            None => None,
        }
    }
}

/// The answers and additional records of a packet, if its sections are as its header declares.
pub open spec fn packet_sections(s: Seq<u8>) -> Option<(Seq<RecordView>, Seq<RecordView>)> {
    if s.len() < 12 {
        None
    } else {
        let h = header_of(s);
        match skip_questions(s, 12, h.questions_count as nat) {
            Some(p) => match records(s, p, h.answers_count as nat) {
                Some((answers, p2)) => match records(s, p2, h.authority_count as nat) {
                    Some((_, p3)) => match records(s, p3, h.additional_count as nat) {
                        Some((additional, _)) => Some((answers, additional)),
                        None => None,
                    },
                    None => None,
                },
                None => None,
            },
            None => None,
        }
    }
}

/// The record's data lie inside the packet and have the length its type demands.
pub open spec fn record_in_bounds(s: Seq<u8>, r: RecordView) -> bool {
    r.rdata_pos >= 0 && r.rdata_pos + r.rdata_len <= s.len() && rdata_len_ok(r.rtype, r.rdata_len)
}

pub proof fn lemma_records_in_bounds(s: Seq<u8>, pos: int, n: nat)
    requires
        records(s, pos, n) is Some,
    ensures
        forall|i: int| 0 <= i < records(s, pos, n).unwrap().0.len()
            ==> record_in_bounds(s, #[trigger] records(s, pos, n).unwrap().0[i]),
    decreases n,
{
    if n > 0 {
        lemma_records_in_bounds(s, pos, (n - 1) as nat);
        let (rs, p) = records(s, pos, (n - 1) as nat).unwrap();
        lemma_name_end_after(s, p);
        let (r, q) = record_at(s, p).unwrap();
        assert(records(s, pos, n).unwrap().0 == rs.push(r));
        assert forall|i: int| 0 <= i < rs.len() + 1 implies record_in_bounds(s, #[trigger] rs.push(r)[i]) by {
            if i < rs.len() {
                assert(rs.push(r)[i] == rs[i]);
            }
        }
    }
}

/// A name that ends, ends after where it starts.
pub proof fn lemma_name_end_after(s: Seq<u8>, pos: int)
    ensures
        name_end(s, pos) matches Some(e) ==> e > pos && pos >= 0,
    decreases s.len() - pos,
{
    if pos >= 0 && pos < s.len() {
        let l = s[pos] as int;
        if l != 0 && l < 64 && pos + 1 + l <= s.len() {
            lemma_name_end_after(s, pos + 1 + l);
        }
    }
}

pub proof fn lemma_sections_in_bounds(s: Seq<u8>)
    requires
        packet_sections(s) is Some,
    ensures
        forall|i: int| 0 <= i < packet_sections(s).unwrap().0.len()
            ==> record_in_bounds(s, #[trigger] packet_sections(s).unwrap().0[i]),
        forall|i: int| 0 <= i < packet_sections(s).unwrap().1.len()
            ==> record_in_bounds(s, #[trigger] packet_sections(s).unwrap().1[i]),
{
    let h = header_of(s);
    let p = skip_questions(s, 12, h.questions_count as nat).unwrap();
    lemma_records_in_bounds(s, p, h.answers_count as nat);
    let p2 = records(s, p, h.answers_count as nat).unwrap().1;
    let p3 = records(s, p2, h.authority_count as nat).unwrap().1;
    lemma_records_in_bounds(s, p3, h.additional_count as nat);
}

/// A record read from a packet: its name and fixed fields, and where its data lie.
pub struct RecordInfo {
    pub name: Name,
    pub rtype: u16,
    pub class: u16,
    pub ttl: u32,
    pub rdata_pos: usize,
    pub rdata_len: usize,
}

pub open spec fn info_view(r: RecordInfo) -> RecordView {
    RecordView {
        name: r.name@,
        rtype: r.rtype,
        class: r.class,
        ttl: r.ttl,
        rdata_pos: r.rdata_pos as int,
        rdata_len: r.rdata_len as int,
    }
}

pub open spec fn infos_view(v: Seq<RecordInfo>) -> Seq<RecordView> {
    v.map_values(|r: RecordInfo| info_view(r))
}

fn copy_range(data: &[u8], from: usize, to: usize) -> (r: Vec<u8>)
    requires
        from <= to <= data@.len(),
    ensures
        r@ == data@.subrange(from as int, to as int),
{
    let mut r: Vec<u8> = Vec::new();
    let mut i = from;
    while i < to
        invariant
            from <= i <= to <= data@.len(),
            r@ == data@.subrange(from as int, i as int),
        decreases to - i,
    {
        r.push(data[i]);
        assert(r@ =~= data@.subrange(from as int, i + 1));
        i = i + 1;
    }
    r
}

/// Reads the name at `pos`, following compression pointers.
pub fn read_name(data: &[u8], pos: usize) -> (r: Option<Name>)
    ensures
        r is None <==> packet_name(data@, pos as int) is None,
        r matches Some(n) ==> packet_name(data@, pos as int) == Some(n@),
{
    let len = data.len();
    let mut acc: Vec<Vec<u8>> = Vec::new();
    let mut cur = pos;
    let mut fuel = len;
    while true
        invariant
            len == data@.len(),
            fuel <= len,
            packet_name(data@, pos as int) == prepend(acc@.map_values(|l: Vec<u8>| l@), name_at(data@, cur as int, fuel as nat)),
        decreases fuel,
    {
        let ghost av = acc@.map_values(|l: Vec<u8>| l@);
        if fuel == 0 || cur >= len {
            return None;
        }
        let l = data[cur];
        if l == 0 {
            assert(av + Seq::<Seq<u8>>::empty() =~= av);
            return Some(Name::from_labels(acc));
        }
        if l >= 192 {
            if cur + 1 >= len {
                return None;
            }
            cur = (l as usize - 192) * 256 + data[cur + 1] as usize;
            fuel = fuel - 1;
        } else {
            if l >= 64 || l as usize > len - cur - 1 {
                return None;
            }
            let label = copy_range(data, cur + 1, cur + 1 + l as usize);
            acc.push(label);
            proof {
                let lab = data@.subrange(cur + 1, cur + 1 + l);
                assert(acc@.map_values(|l: Vec<u8>| l@) =~= av.push(lab));
                match name_at(data@, cur + 1 + l, (fuel - 1) as nat) {
                    Some(rest) => {
                        assert(av + (seq![lab] + rest) =~= av.push(lab) + rest);
                    },
                    None => {},
                }
            }
            cur = cur + 1 + l as usize;
            fuel = fuel - 1;
        }
    }
    None
}

/// Where the name written at `pos` ends.
pub fn skip_name(data: &[u8], pos: usize) -> (r: Option<usize>)
    ensures
        r is None <==> name_end(data@, pos as int) is None,
        r matches Some(e) ==> name_end(data@, pos as int) == Some(e as int),
{
    let len = data.len();
    let mut cur = pos;
    while true
        invariant
            len == data@.len(),
            name_end(data@, pos as int) == name_end(data@, cur as int),
        decreases len - cur,
    {
        if cur >= len {
            return None;
        }
        let l = data[cur];
        if l == 0 {
            return Some(cur + 1);
        }
        if l >= 192 {
            if cur + 1 >= len {
                return None;
            }
            return Some(cur + 2);
        }
        if l >= 64 || l as usize > len - cur - 1 {
            return None;
        }
        cur = cur + 1 + l as usize;
    }
    None
}

pub(crate) fn u16_from(data: &[u8], pos: usize) -> (r: u16)
    requires
        pos + 2 <= data@.len(),
    ensures
        r == u16_at(data@, pos as int),
{
    proof {
        lemma_be_value_bound(data@.subrange(pos as int, pos + 2));
        lemma_pow256_16();
    }
    read_be(data, pos, 2) as u16
}

/// Reads the record at `pos`; also returns where the next item starts.
pub fn read_record(data: &[u8], pos: usize) -> (r: Option<(RecordInfo, usize)>)
    ensures
        r is None <==> record_at(data@, pos as int) is None,
        r matches Some((info, next)) ==> record_at(data@, pos as int) == Some((info_view(info), next as int)),
{
    let e = match skip_name(data, pos) {
        Some(e) => e,
        None => return None,
    };
    let name = match read_name(data, pos) {
        Some(n) => n,
        None => return None,
    };
    if e > data.len() || data.len() - e < 10 {
        return None;
    }
    let rtype = u16_from(data, e);
    let class = u16_from(data, e + 2);
    let ttl = read_be(data, e + 4, 4);
    let len = u16_from(data, e + 8) as usize;
    if data.len() - e - 10 < len {
        return None;
    }
    let len_ok = (rtype != TYPE_A || len == 4) && (rtype != TYPE_AAAA || len == 16) && (rtype != TYPE_SRV || len >= 7);
    if !len_ok {
        return None;
    }
    proof {
        lemma_be_value_bound(data@.subrange(e + 4, e + 8));
        lemma_pow256_16();
    }
    let info = RecordInfo { name, rtype, class, ttl: ttl as u32, rdata_pos: e + 10, rdata_len: len };
    Some((info, e + 10 + len))
}

/// Reads the question at `pos`; also returns where the next item starts.
pub fn read_question(data: &[u8], pos: usize) -> (r: Option<(Question, usize)>)
    ensures
        r is None <==> question_at(data@, pos as int) is None,
        r matches Some((q, next)) ==> question_at(data@, pos as int) == Some(
            (
                QuestionView {
                    name: q.qname@,
                    qtype: q.qtype,
                    qclass: q.qclass,
                    unicast_response: q.unicast_response,
                },
                next as int,
            ),
        ),
{
    let e = match skip_name(data, pos) {
        Some(e) => e,
        None => return None,
    };
    let name = match read_name(data, pos) {
        Some(n) => n,
        None => return None,
    };
    if e > data.len() || data.len() - e < 4 {
        return None;
    }
    let qtype = u16_from(data, e);
    let c = u16_from(data, e + 2);
    Some((Question::new(name, qtype, c % 32768, c >= 32768), e + 4))
}

proof fn lemma_labels_wire_longer(labels: Seq<Seq<u8>>)
    ensures
        labels_wire(labels).len() > labels.len(),
    decreases labels.len(),
{
    if labels.len() > 0 {
        lemma_labels_wire_longer(labels.drop_first());
    }
}

/// Labels written at `pos` are read back from there, and the name ends after them.
pub proof fn lemma_labels_decode(s: Seq<u8>, pos: int, labels: Seq<Seq<u8>>, fuel: nat)
    requires
        0 <= pos,
        pos + labels_wire(labels).len() <= s.len(),
        s.subrange(pos, pos + labels_wire(labels).len()) == labels_wire(labels),
        forall|i: int| 0 <= i < labels.len() ==> 1 <= #[trigger] labels[i].len() <= 63,
        fuel > labels.len(),
    ensures
        name_end(s, pos) == Some(pos + labels_wire(labels).len()),
        name_at(s, pos, fuel) == Some(labels),
    decreases labels.len(),
{
    let w = labels_wire(labels);
    assert(s[pos] == s.subrange(pos, pos + w.len())[0]);
    if labels.len() == 0 {
        assert(labels =~= Seq::<Seq<u8>>::empty());
    } else {
        let l = labels[0].len() as int;
        let rest = labels.drop_first();
        let rw = labels_wire(rest);
        assert(w == seq![l as u8] + labels[0] + rw);
        assert(s[pos] as int == l);
        assert(s.subrange(pos + 1, pos + 1 + l) =~= labels[0]) by {
            assert forall|k: int| 0 <= k < l implies s.subrange(pos + 1, pos + 1 + l)[k] == labels[0][k] by {
                assert(s.subrange(pos + 1, pos + 1 + l)[k] == s.subrange(pos, pos + w.len())[1 + k]);
            }
        }
        assert(s.subrange(pos + 1 + l, pos + 1 + l + rw.len()) =~= rw) by {
            assert forall|k: int| 0 <= k < rw.len() implies s.subrange(pos + 1 + l, pos + 1 + l + rw.len())[k] == rw[k] by {
                assert(s.subrange(pos + 1 + l, pos + 1 + l + rw.len())[k] == s.subrange(pos, pos + w.len())[1 + l + k]);
            }
        }
        assert forall|i: int| 0 <= i < rest.len() implies 1 <= #[trigger] rest[i].len() <= 63 by {
            assert(rest[i] == labels[i + 1]);
        }
        lemma_labels_decode(s, pos + 1 + l, rest, (fuel - 1) as nat);
        assert(seq![s.subrange(pos + 1, pos + 1 + l)] + rest =~= labels);
    }
}

/// A query with one question, written in a packet after the 12-byte header,
/// reads back as that question: its name, type, class and unicast preference.
pub proof fn lemma_question_decodes(s: Seq<u8>, name: Seq<Seq<u8>>, qtype: u16, qclass: u16, unicast: bool)
    requires
        labels_wf(name),
        qclass < 32768,
        s.len() >= 12,
        s.subrange(12, s.len() as int) == question_image(name, qtype, qclass, unicast),
    ensures
        question_at(s, 12) == Some(
            (
                QuestionView { name, qtype, qclass, unicast_response: unicast },
                s.len() as int,
            ),
        ),
{
    let lw = labels_wire(name);
    let c = qclass as nat + if unicast { 32768nat } else { 0nat };
    let img = question_image(name, qtype, qclass, unicast);
    lemma_pow256_16();
    lemma_be_round_trip(qtype as nat, 2);
    lemma_be_round_trip(c, 2);
    assert(img == lw + be_encode(qtype as nat, 2) + be_encode(c, 2));
    let e: int = 12 + lw.len() as int;
    assert(s.subrange(12, s.len() as int).len() == s.len() - 12);
    assert(img.len() == lw.len() + 4);
    assert(e + 4 == s.len());
    assert(s.subrange(12, e) =~= lw) by {
        assert forall|k: int| 0 <= k < lw.len() implies s.subrange(12, e)[k] == lw[k] by {
            assert(s.subrange(12, e)[k] == s.subrange(12, s.len() as int)[k]);
        }
    }
    assert(s.subrange(e, e + 2) =~= be_encode(qtype as nat, 2)) by {
        assert forall|k: int| 0 <= k < 2 implies s.subrange(e, e + 2)[k] == be_encode(qtype as nat, 2)[k] by {
            assert(s.subrange(e, e + 2)[k] == s.subrange(12, s.len() as int)[lw.len() + k]);
        }
    }
    assert(s.subrange(e + 2, e + 4) =~= be_encode(c, 2)) by {
        assert forall|k: int| 0 <= k < 2 implies s.subrange(e + 2, e + 4)[k] == be_encode(c, 2)[k] by {
            assert(s.subrange(e + 2, e + 4)[k] == s.subrange(12, s.len() as int)[lw.len() + 2 + k]);
        }
    }
    lemma_labels_wire_longer(name);
    lemma_labels_decode(s, 12, name, s.len());
    lemma_be_value_bound(s.subrange(e, e + 2));
    lemma_be_value_bound(s.subrange(e + 2, e + 4));
}

/// Skips `n` questions from `pos`.
pub fn skip_question_section(data: &[u8], pos: usize, n: u16) -> (r: Option<usize>)
    ensures
        r is None <==> skip_questions(data@, pos as int, n as nat) is None,
        r matches Some(p) ==> skip_questions(data@, pos as int, n as nat) == Some(p as int),
{
    let mut p = pos;
    let mut i: u16 = 0;
    while i < n
        invariant
            i <= n,
            skip_questions(data@, pos as int, i as nat) == Some(p as int),
        decreases n - i,
    {
        let e = match skip_name(data, p) {
            Some(e) => e,
            None => {
                proof { lemma_skip_questions_none(data@, pos as int, (i + 1) as nat, n as nat); }
                return None;
            },
        };
        if e > data.len() || data.len() - e < 4 {
            proof { lemma_skip_questions_none(data@, pos as int, (i + 1) as nat, n as nat); }
            return None;
        }
        p = e + 4;
        i = i + 1;
    }
    Some(p)
}

proof fn lemma_skip_questions_none(s: Seq<u8>, pos: int, k: nat, n: nat)
    requires
        k <= n,
        skip_questions(s, pos, k) is None,
    ensures
        skip_questions(s, pos, n) is None,
    decreases n - k,
{
    if k < n {
        lemma_skip_questions_none(s, pos, k + 1, n);
    }
}

proof fn lemma_records_none(s: Seq<u8>, pos: int, k: nat, n: nat)
    requires
        k <= n,
        records(s, pos, k) is None,
    ensures
        records(s, pos, n) is None,
    decreases n - k,
{
    if k < n {
        lemma_records_none(s, pos, k + 1, n);
    }
}

/// Reads `n` records from `pos`; also returns where they end.
pub fn read_records(data: &[u8], pos: usize, n: u16) -> (r: Option<(Vec<RecordInfo>, usize)>)
    ensures
        r is None <==> records(data@, pos as int, n as nat) is None,
        r matches Some((v, p)) ==> records(data@, pos as int, n as nat) == Some((infos_view(v@), p as int)),
{
    let mut out: Vec<RecordInfo> = Vec::new();
    let mut p = pos;
    let mut i: u16 = 0;
    while i < n
        invariant
            i <= n,
            records(data@, pos as int, i as nat) == Some((infos_view(out@), p as int)),
        decreases n - i,
    {
        match read_record(data, p) {
            Some((info, next)) => {
                let ghost before = infos_view(out@);
                out.push(info);
                assert(infos_view(out@) =~= before.push(info_view(info)));
                p = next;
            },
            None => {
                proof { lemma_records_none(data@, pos as int, (i + 1) as nat, n as nat); }
                return None;
            },
        }
        i = i + 1;
    }
    Some((out, p))
}

/// The answers and additional records of a packet.
pub fn read_sections(data: &[u8]) -> (r: Result<(Vec<RecordInfo>, Vec<RecordInfo>), SimpleDnsError>)
    ensures
        r is Err <==> packet_sections(data@) is None,
        r is Err ==> r == Err::<(Vec<RecordInfo>, Vec<RecordInfo>), SimpleDnsError>(SimpleDnsError::InvalidDnsPacket),
        r matches Ok((an, ar)) ==> packet_sections(data@) == Some((infos_view(an@), infos_view(ar@))),
{
    if data.len() < 12 {
        return Err(SimpleDnsError::InvalidDnsPacket);
    }
    let qd = u16_from(data, 4);
    let an = u16_from(data, 6);
    let ns = u16_from(data, 8);
    let ar = u16_from(data, 10);
    let p = match skip_question_section(data, 12, qd) {
        Some(p) => p,
        None => return Err(SimpleDnsError::InvalidDnsPacket),
    };
    let (answers, p2) = match read_records(data, p, an) {
        Some(x) => x,
        None => return Err(SimpleDnsError::InvalidDnsPacket),
    };
    let (_, p3) = match read_records(data, p2, ns) {
        Some(x) => x,
        None => return Err(SimpleDnsError::InvalidDnsPacket),
    };
    let (additional, _) = match read_records(data, p3, ar) {
        Some(x) => x,
        None => return Err(SimpleDnsError::InvalidDnsPacket),
    };
    Ok((answers, additional))
}

} // verus!
