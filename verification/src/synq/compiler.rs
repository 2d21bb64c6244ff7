//! Lowering of a syntax tree to bytecode.
use crate::synq::ast::{Ast, AstModel, AttrModel, FrameModel, PhotonModel};
use crate::synq::bytecode::{
    encode, encode_all, has_encoding, lemma_encode_all_concat, Instruction, Register,
};
use crate::text::str_eq;
use vstd::prelude::*;

verus! {

/// The number of a known attribute key: `codec` is 1, `over` is 2, any
/// other key is 0xFF.
pub open spec fn attribute_id(key: Seq<char>) -> u8 {
    if key == "codec"@ {
        0x01
    } else if key == "over"@ {
        0x02
    } else {
        0xFF
    }
}

/// The instructions for one frame: a `LoadAttr` into register 0 for each of
/// its attributes, `BeginFrame`, a `StoreField` for each field (register and
/// index both the field's position, taken modulo 256), and `EndFrame` of
/// register 0.
pub open spec fn frame_program(f: FrameModel) -> Seq<Instruction> {
    Seq::new(
        f.attrs.len(),
        |i: int| Instruction::LoadAttr { dest: Register(0), attr_id: attribute_id(f.attrs[i].key) },
    ) + seq![Instruction::BeginFrame] + Seq::new(
        f.fields.len(),
        |i: int| Instruction::StoreField { src: Register(#[verifier::truncate] (i as u8)), index: #[verifier::truncate] (i as u8) },
    ) + seq![Instruction::EndFrame { src: Register(0) }]
}

/// The instructions for one photon: `BeginPhoton`, a `DefMessage` for each
/// message (request and response frames taken as the message's position
/// and the next one, modulo 256), and `EndPhoton`.
pub open spec fn photon_program(p: PhotonModel) -> Seq<Instruction> {
    seq![Instruction::BeginPhoton] + Seq::new(
        p.messages.len(),
        |i: int| Instruction::DefMessage { req_frame: i as u8, res_frame: (i + 1) as u8 },
    ) + seq![Instruction::EndPhoton]
}

pub open spec fn frames_program(fs: Seq<FrameModel>) -> Seq<Instruction>
    decreases fs.len(),
{
    if fs.len() == 0 {
        Seq::empty()
    } else {
        frames_program(fs.drop_last()) + frame_program(fs.last())
    }
}

pub open spec fn photons_program(ps: Seq<PhotonModel>) -> Seq<Instruction>
    decreases ps.len(),
{
    if ps.len() == 0 {
        Seq::empty()
    } else {
        photons_program(ps.drop_last()) + photon_program(ps.last())
    }
}

/// The instructions for a syntax tree: those of its frames in order, then
/// those of its photons in order.
pub open spec fn program(ast: AstModel) -> Seq<Instruction> {
    frames_program(ast.frames) + photons_program(ast.synqs)
}

/// Encoding a sequence that grew by one instruction appends that
/// instruction's bytes.
pub proof fn lemma_encode_all_push(is: Seq<Instruction>, i: Instruction)
    ensures
        encode_all(is.push(i)) == encode_all(is) + encode(i),
{
    assert(is.push(i).drop_last() =~= is);
}

/// The number of a known attribute key (see [`attribute_id`]).
pub fn map_attribute_key(key: &str) -> (res: u8)
    ensures
        res == attribute_id(key@),
{
    if str_eq(key, "codec") {
        0x01
    } else if str_eq(key, "over") {
        0x02
    } else {
        0xFF
    }
}

/// Compiles a syntax tree to bytecode: the encoding of [`program`].
pub fn compile_ast(ast: &Ast) -> (res: Vec<u8>)
    ensures
        res@ == encode_all(program(ast.deep_view())),
{
    let ghost m = ast.deep_view();
    let mut instructions: Vec<Instruction> = Vec::new();
    let mut buf: Vec<u8> = Vec::new();
    let mut fi: usize = 0;
    assert(m.frames.take(0) =~= Seq::<FrameModel>::empty());
    while fi < ast.frames.len()
        invariant
            m == ast.deep_view(),
            forall|j: int| 0 <= j < instructions@.len() ==> #[trigger] has_encoding(instructions@[j]),
            fi <= ast.frames@.len(),
            m.frames.len() == ast.frames@.len(),
            instructions@ == frames_program(m.frames.take(fi as int)),
        decreases ast.frames@.len() - fi,
    {
        let frame = &ast.frames[fi];
        let ghost fm = m.frames[fi as int];
        assert(fm == frame.deep_view());
        let ghost start = instructions@;
        let mut ai: usize = 0;
        while ai < frame.attrs.len()
            invariant
                fm == frame.deep_view(),
                forall|j: int| 0 <= j < instructions@.len() ==> #[trigger] has_encoding(instructions@[j]),
                ai <= frame.attrs@.len(),
                fm.attrs.len() == frame.attrs@.len(),
                instructions@ == start + Seq::new(
                    ai as nat,
                    |i: int| Instruction::LoadAttr {
                        dest: Register(0),
                        attr_id: attribute_id(fm.attrs[i].key),
                    },
                ),
            decreases frame.attrs@.len() - ai,
        {
            let attr_id = map_attribute_key(frame.attrs[ai].key.as_str());
            assert(frame.attrs[ai as int].deep_view() == fm.attrs[ai as int]);
            instructions.push(Instruction::LoadAttr { dest: Register(0), attr_id });
            assert(instructions@ =~= start + Seq::new(
                (ai + 1) as nat,
                |i: int| Instruction::LoadAttr {
                    dest: Register(0),
                    attr_id: attribute_id(fm.attrs[i].key),
                },
            ));
            ai = ai + 1;
        }
        instructions.push(Instruction::BeginFrame);
        let ghost mid = instructions@;
        let mut i: usize = 0;
        while i < frame.fields.len()
            invariant
                fm == frame.deep_view(),
                forall|j: int| 0 <= j < instructions@.len() ==> #[trigger] has_encoding(instructions@[j]),
                i <= frame.fields@.len(),
                fm.fields.len() == frame.fields@.len(),
                instructions@ == mid + Seq::new(
                    i as nat,
                    |k: int| Instruction::StoreField { src: Register(k as u8), index: k as u8 },
                ),
            decreases frame.fields@.len() - i,
        {
            instructions.push(Instruction::StoreField { src: Register(#[verifier::truncate] (i as u8)), index: #[verifier::truncate] (i as u8) });
            assert(instructions@ =~= mid + Seq::new(
                (i + 1) as nat,
                |k: int| Instruction::StoreField { src: Register(k as u8), index: k as u8 },
            ));
            i = i + 1;
        }
        instructions.push(Instruction::EndFrame { src: Register(0) });
        proof {
            let fs = m.frames.take(fi + 1);
            assert(fs.drop_last() =~= m.frames.take(fi as int));
            assert(instructions@ =~= frames_program(m.frames.take(fi as int)) + frame_program(fm));
        }
        fi = fi + 1;
    }
    assert(m.frames.take(fi as int) =~= m.frames);
    let ghost after_frames = instructions@;
    let mut pi: usize = 0;
    assert(m.synqs.take(0) =~= Seq::<PhotonModel>::empty());
    assert(after_frames + photons_program(m.synqs.take(0)) =~= after_frames);
    while pi < ast.synqs.len()
        invariant
            m == ast.deep_view(),
            forall|j: int| 0 <= j < instructions@.len() ==> #[trigger] has_encoding(instructions@[j]),
            pi <= ast.synqs@.len(),
            m.synqs.len() == ast.synqs@.len(),
            after_frames == frames_program(m.frames),
            instructions@ == after_frames + photons_program(m.synqs.take(pi as int)),
        decreases ast.synqs@.len() - pi,
    {
        let synq = &ast.synqs[pi];
        let ghost pm = m.synqs[pi as int];
        assert(pm == synq.deep_view());
        instructions.push(Instruction::BeginPhoton);
        let ghost mid = instructions@;
        let mut i: usize = 0;
        while i < synq.messages.len()
            invariant
                pm == synq.deep_view(),
                forall|j: int| 0 <= j < instructions@.len() ==> #[trigger] has_encoding(instructions@[j]),
                i <= synq.messages@.len(),
                pm.messages.len() == synq.messages@.len(),
                instructions@ == mid + Seq::new(
                    i as nat,
                    |k: int| Instruction::DefMessage { req_frame: k as u8, res_frame: (k + 1) as u8 },
                ),
            decreases synq.messages@.len() - i,
        {
            instructions.push(Instruction::DefMessage {
                req_frame: #[verifier::truncate] (i as u8),
                res_frame: #[verifier::truncate] ((i + 1) as u8),
            });
            assert(instructions@ =~= mid + Seq::new(
                (i + 1) as nat,
                |k: int| Instruction::DefMessage { req_frame: k as u8, res_frame: (k + 1) as u8 },
            ));
            i = i + 1;
        }
        instructions.push(Instruction::EndPhoton);
        proof {
            let ps = m.synqs.take(pi + 1);
            assert(ps.drop_last() =~= m.synqs.take(pi as int));
            assert(instructions@ =~= after_frames + photons_program(m.synqs.take(pi as int))
                + photon_program(pm));
        }
        pi = pi + 1;
    }
    assert(m.synqs.take(pi as int) =~= m.synqs);
    let ghost prog = instructions@;
    assert(prog == program(m));
    let mut k: usize = 0;
    assert(prog.take(0) =~= Seq::<Instruction>::empty());
    while k < instructions.len()
        invariant
            prog == instructions@,
            k <= instructions@.len(),
            buf@ == encode_all(prog.take(k as int)),
            forall|j: int| 0 <= j < prog.len() ==> #[trigger] has_encoding(prog[j]),
        decreases instructions@.len() - k,
    {
        instructions[k].emit(&mut buf);
        proof {
            lemma_encode_all_push(prog.take(k as int), prog[k as int]);
            assert(prog.take(k + 1) =~= prog.take(k as int).push(prog[k as int]));
        }
        k = k + 1;
    }
    assert(prog.take(k as int) =~= prog);
    buf
}

/// The bytes of a frame's attributes: `0x20 0 id` for each, in order.
pub open spec fn attr_bytes(attrs: Seq<AttrModel>) -> Seq<u8>
    decreases attrs.len(),
{
    if attrs.len() == 0 {
        Seq::empty()
    } else {
        attr_bytes(attrs.drop_last()) + seq![0x20u8, 0u8, attribute_id(attrs.last().key)]
    }
}

/// The bytes of `k` fields: `0x12 i i` for each position `i` (modulo 256).
pub open spec fn field_bytes(k: int) -> Seq<u8>
    decreases k,
{
    if k <= 0 {
        Seq::empty()
    } else {
        field_bytes(k - 1) + seq![0x12u8, (k - 1) as u8, (k - 1) as u8]
    }
}

/// The bytes of `k` messages: `0x16 i i+1` for each position `i` (modulo
/// 256).
pub open spec fn message_bytes(k: int) -> Seq<u8>
    decreases k,
{
    if k <= 0 {
        Seq::empty()
    } else {
        message_bytes(k - 1) + seq![0x16u8, (k - 1) as u8, k as u8]
    }
}

/// The bytes of a frame: its attributes, `0x10`, its fields, `0x11 0`.
pub open spec fn frame_bytes(f: FrameModel) -> Seq<u8> {
    attr_bytes(f.attrs) + seq![0x10u8] + field_bytes(f.fields.len() as int) + seq![0x11u8, 0u8]
}

/// The bytes of a photon: `0x14`, its messages, `0x15`.
pub open spec fn photon_bytes(p: PhotonModel) -> Seq<u8> {
    seq![0x14u8] + message_bytes(p.messages.len() as int) + seq![0x15u8]
}

pub open spec fn frames_bytes(fs: Seq<FrameModel>) -> Seq<u8>
    decreases fs.len(),
{
    if fs.len() == 0 {
        Seq::empty()
    } else {
        frames_bytes(fs.drop_last()) + frame_bytes(fs.last())
    }
}

pub open spec fn photons_bytes(ps: Seq<PhotonModel>) -> Seq<u8>
    decreases ps.len(),
{
    if ps.len() == 0 {
        Seq::empty()
    } else {
        photons_bytes(ps.drop_last()) + photon_bytes(ps.last())
    }
}

proof fn lemma_encode_single(i: Instruction)
    ensures
        encode_all(seq![i]) == encode(i),
{
    assert(seq![i].drop_last() =~= Seq::<Instruction>::empty());
    assert(encode_all(Seq::<Instruction>::empty()) =~= Seq::<u8>::empty());
    assert(seq![i].last() == i);
    assert(encode_all(seq![i]) =~= encode(i));
}

proof fn lemma_attr_bytes(attrs: Seq<AttrModel>)
    ensures
        encode_all(
            Seq::new(
                attrs.len(),
                |i: int| Instruction::LoadAttr { dest: Register(0), attr_id: attribute_id(attrs[i].key) },
            ),
        ) == attr_bytes(attrs),
    decreases attrs.len(),
{
    let s = Seq::new(
        attrs.len(),
        |i: int| Instruction::LoadAttr { dest: Register(0), attr_id: attribute_id(attrs[i].key) },
    );
    if attrs.len() == 0 {
        assert(s =~= Seq::<Instruction>::empty());
    } else {
        let d = attrs.drop_last();
        lemma_attr_bytes(d);
        assert(s.drop_last() =~= Seq::new(
            d.len(),
            |i: int| Instruction::LoadAttr { dest: Register(0), attr_id: attribute_id(d[i].key) },
        ));
        assert(encode(s.last()) =~= seq![0x20u8, 0u8, attribute_id(attrs.last().key)]);
    }
}

proof fn lemma_field_bytes(k: nat)
    ensures
        encode_all(
            Seq::new(
                k,
                |i: int| Instruction::StoreField { src: Register(#[verifier::truncate] (i as u8)), index: #[verifier::truncate] (i as u8) },
            ),
        ) == field_bytes(k as int),
    decreases k,
{
    let s = Seq::new(
        k,
        |i: int| Instruction::StoreField { src: Register(#[verifier::truncate] (i as u8)), index: #[verifier::truncate] (i as u8) },
    );
    if k == 0 {
        assert(s =~= Seq::<Instruction>::empty());
    } else {
        lemma_field_bytes((k - 1) as nat);
        assert(s.drop_last() =~= Seq::new(
            (k - 1) as nat,
            |i: int| Instruction::StoreField { src: Register(#[verifier::truncate] (i as u8)), index: #[verifier::truncate] (i as u8) },
        ));
        assert(encode(s.last()) =~= seq![0x12u8, (k - 1) as u8, (k - 1) as u8]);
    }
}

proof fn lemma_message_bytes(k: nat)
    ensures
        encode_all(
            Seq::new(
                k,
                |i: int| Instruction::DefMessage { req_frame: i as u8, res_frame: (i + 1) as u8 },
            ),
        ) == message_bytes(k as int),
    decreases k,
{
    let s = Seq::new(
        k,
        |i: int| Instruction::DefMessage { req_frame: i as u8, res_frame: (i + 1) as u8 },
    );
    if k == 0 {
        assert(s =~= Seq::<Instruction>::empty());
    } else {
        lemma_message_bytes((k - 1) as nat);
        assert(s.drop_last() =~= Seq::new(
            (k - 1) as nat,
            |i: int| Instruction::DefMessage { req_frame: i as u8, res_frame: (i + 1) as u8 },
        ));
        assert(encode(s.last()) =~= seq![0x16u8, (k - 1) as u8, k as u8]);
    }
}

proof fn lemma_frame_bytes(f: FrameModel)
    ensures
        encode_all(frame_program(f)) == frame_bytes(f),
{
    let a = Seq::new(
        f.attrs.len(),
        |i: int| Instruction::LoadAttr { dest: Register(0), attr_id: attribute_id(f.attrs[i].key) },
    );
    let b = Seq::new(
        f.fields.len(),
        |i: int| Instruction::StoreField { src: Register(#[verifier::truncate] (i as u8)), index: #[verifier::truncate] (i as u8) },
    );
    lemma_attr_bytes(f.attrs);
    lemma_field_bytes(f.fields.len());
    lemma_encode_single(Instruction::BeginFrame);
    lemma_encode_single(Instruction::EndFrame { src: Register(0) });
    lemma_encode_all_concat(a, seq![Instruction::BeginFrame]);
    lemma_encode_all_concat(a + seq![Instruction::BeginFrame], b);
    lemma_encode_all_concat(a + seq![Instruction::BeginFrame] + b, seq![Instruction::EndFrame { src: Register(0) }]);
    assert(encode(Instruction::BeginFrame) =~= seq![0x10u8]);
    assert(encode(Instruction::EndFrame { src: Register(0) }) =~= seq![0x11u8, 0u8]);
}

proof fn lemma_photon_bytes(p: PhotonModel)
    ensures
        encode_all(photon_program(p)) == photon_bytes(p),
{
    let m = Seq::new(
        p.messages.len(),
        |i: int| Instruction::DefMessage { req_frame: i as u8, res_frame: (i + 1) as u8 },
    );
    lemma_message_bytes(p.messages.len());
    lemma_encode_single(Instruction::BeginPhoton);
    lemma_encode_single(Instruction::EndPhoton);
    lemma_encode_all_concat(seq![Instruction::BeginPhoton], m);
    lemma_encode_all_concat(seq![Instruction::BeginPhoton] + m, seq![Instruction::EndPhoton]);
    assert(encode(Instruction::BeginPhoton) =~= seq![0x14u8]);
    assert(encode(Instruction::EndPhoton) =~= seq![0x15u8]);
}

proof fn lemma_frames_bytes(fs: Seq<FrameModel>)
    ensures
        encode_all(frames_program(fs)) == frames_bytes(fs),
    decreases fs.len(),
{
    if fs.len() == 0 {
        assert(encode_all(Seq::<Instruction>::empty()) =~= Seq::<u8>::empty());
    } else {
        lemma_frames_bytes(fs.drop_last());
        lemma_frame_bytes(fs.last());
        lemma_encode_all_concat(frames_program(fs.drop_last()), frame_program(fs.last()));
    }
}

proof fn lemma_photons_bytes(ps: Seq<PhotonModel>)
    ensures
        encode_all(photons_program(ps)) == photons_bytes(ps),
    decreases ps.len(),
{
    if ps.len() == 0 {
        assert(encode_all(Seq::<Instruction>::empty()) =~= Seq::<u8>::empty());
    } else {
        lemma_photons_bytes(ps.drop_last());
        lemma_photon_bytes(ps.last());
        lemma_encode_all_concat(photons_program(ps.drop_last()), photon_program(ps.last()));
    }
}

/// Law: the bytecode of a tree, byte by byte: for each frame, `0x20 0 id`
/// per attribute, `0x10`, `0x12 i i` per field, `0x11 0`; then for each
/// photon, `0x14`, `0x16 i i+1` per message, `0x15`.
pub proof fn law_bytecode_layout(ast: AstModel)
    ensures
        encode_all(program(ast)) == frames_bytes(ast.frames) + photons_bytes(ast.synqs),
{
    lemma_frames_bytes(ast.frames);
    lemma_photons_bytes(ast.synqs);
    lemma_encode_all_concat(frames_program(ast.frames), photons_program(ast.synqs));
}

/// What of a frame the bytecode depends on: its attributes' ids and its
/// number of fields.
pub open spec fn frame_shape(f: FrameModel) -> (Seq<u8>, nat) {
    (f.attrs.map_values(|a: AttrModel| attribute_id(a.key)), f.fields.len())
}

/// What of a tree the bytecode depends on: the shape of each frame and the
/// number of messages of each photon.
pub open spec fn bytecode_shape(ast: AstModel) -> (Seq<(Seq<u8>, nat)>, Seq<nat>) {
    (
        ast.frames.map_values(|f: FrameModel| frame_shape(f)),
        ast.synqs.map_values(|p: PhotonModel| p.messages.len()),
    )
}

proof fn lemma_frame_program_shape(f1: FrameModel, f2: FrameModel)
    requires
        frame_shape(f1) == frame_shape(f2),
    ensures
        frame_program(f1) == frame_program(f2),
{
    let s1 = f1.attrs.map_values(|a: AttrModel| attribute_id(a.key));
    let s2 = f2.attrs.map_values(|a: AttrModel| attribute_id(a.key));
    assert(s1 == frame_shape(f1).0 && s2 == frame_shape(f2).0);
    assert(f1.attrs.len() == f2.attrs.len()) by {
        assert(s1.len() == f1.attrs.len() && s2.len() == f2.attrs.len());
    }
    assert forall|i: int| 0 <= i < f1.attrs.len() implies attribute_id(f1.attrs[i].key)
        == attribute_id(f2.attrs[i].key) by {
        assert(s1[i] == attribute_id(f1.attrs[i].key));
        assert(s2[i] == attribute_id(f2.attrs[i].key));
    }
    assert(Seq::new(
        f1.attrs.len(),
        |i: int| Instruction::LoadAttr { dest: Register(0), attr_id: attribute_id(f1.attrs[i].key) },
    ) =~= Seq::new(
        f2.attrs.len(),
        |i: int| Instruction::LoadAttr { dest: Register(0), attr_id: attribute_id(f2.attrs[i].key) },
    ));
}

proof fn lemma_frames_program_shape(a: Seq<FrameModel>, b: Seq<FrameModel>)
    requires
        a.map_values(|f: FrameModel| frame_shape(f)) == b.map_values(|f: FrameModel| frame_shape(f)),
    ensures
        frames_program(a) == frames_program(b),
    decreases a.len(),
{
    let ma = a.map_values(|f: FrameModel| frame_shape(f));
    let mb = b.map_values(|f: FrameModel| frame_shape(f));
    assert(a.len() == b.len()) by {
        assert(ma.len() == a.len() && mb.len() == b.len());
    }
    if a.len() > 0 {
        assert(a.drop_last().map_values(|f: FrameModel| frame_shape(f)) =~= ma.drop_last());
        assert(b.drop_last().map_values(|f: FrameModel| frame_shape(f)) =~= mb.drop_last());
        lemma_frames_program_shape(a.drop_last(), b.drop_last());
        assert(ma[a.len() - 1] == mb[a.len() - 1]);
        lemma_frame_program_shape(a.last(), b.last());
    }
}

proof fn lemma_photons_program_shape(a: Seq<PhotonModel>, b: Seq<PhotonModel>)
    requires
        a.map_values(|p: PhotonModel| p.messages.len()) == b.map_values(|p: PhotonModel| p.messages.len()),
    ensures
        photons_program(a) == photons_program(b),
    decreases a.len(),
{
    let ma = a.map_values(|p: PhotonModel| p.messages.len());
    let mb = b.map_values(|p: PhotonModel| p.messages.len());
    assert(a.len() == b.len()) by {
        assert(ma.len() == a.len() && mb.len() == b.len());
    }
    if a.len() > 0 {
        assert(a.drop_last().map_values(|p: PhotonModel| p.messages.len()) =~= ma.drop_last());
        assert(b.drop_last().map_values(|p: PhotonModel| p.messages.len()) =~= mb.drop_last());
        lemma_photons_program_shape(a.drop_last(), b.drop_last());
        assert(ma[a.len() - 1] == mb[a.len() - 1]);
    }
}

/// Law: the bytecode depends only on the attributes' ids and the numbers
/// of fields and messages: trees of the same shape compile to the same
/// bytes, whatever their names, types, hints, values and the rest.
pub proof fn law_bytecode_depends_only_on_shape(a1: AstModel, a2: AstModel)
    requires
        bytecode_shape(a1) == bytecode_shape(a2),
    ensures
        program(a1) == program(a2),
        encode_all(program(a1)) == encode_all(program(a2)),
{
    lemma_frames_program_shape(a1.frames, a2.frames);
    lemma_photons_program_shape(a1.synqs, a2.synqs);
}

} // verus!
