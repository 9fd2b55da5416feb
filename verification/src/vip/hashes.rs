//! The digests of everything that a session sends for a program file.
//!
//! The calculation asks for what lies outside it, one thing at a time: the packet
//! of a command, whether a file is there, the next bytes of that file. It is
//! driven by answering each request with an event.
use super::program::{
    attribute_models, law_file, law_no_file, node_models, parse_program, xml_root_children, ElementModel, ProgramError,
    XmlNode,
};
use super::tables::{all_digest_sized, rows};
use crate::digest::{digest, sha256, SHA256_MAX_MESSAGE_LEN};
use crate::text::{ascii_lowercase, law_ascii_lowercase};
use vstd::prelude::*;

verus! {

/// What a calculation is waiting for.
#[derive(Clone, Copy, Debug, PartialEq, Eq, Structural)]
pub enum HashPhase {
    /// The packet of the current element.
    Setup,
    /// The file of the current element.
    Open,
    /// More bytes of that file.
    Read,
    /// Nothing: all digests are there.
    Done,
}

/// An answer to what a calculation asked for.
pub enum HashEvent<'a> {
    /// The packet that was set up.
    Packet(&'a [u8]),
    /// The file does not exist.
    FileMissing,
    /// The file exists and is open.
    FileOpened,
    /// What one read of the file gave: no bytes at its end.
    Chunk(&'a [u8]),
}

/// What a calculation asks for.
pub enum HashAction<'a> {
    /// Set up the packet of this command with these arguments.
    SetupPacket { name: String, args: &'a Vec<(String, String)> },
    /// Open this file, which lies beside the program file, if it exists.
    OpenFile { filename: &'a str },
    /// Read from the file, at most that many bytes.
    ReadChunk { max_len: usize },
    /// Take the digests.
    Finish,
}

/// What an event says.
pub enum HashEventModel {
    Packet(Seq<u8>),
    FileMissing,
    FileOpened,
    Chunk(Seq<u8>),
}

/// What an action asks for.
pub enum HashActionModel {
    SetupPacket { name: Seq<char>, args: Seq<(Seq<char>, Seq<char>)> },
    OpenFile { filename: Seq<char> },
    ReadChunk { max_len: nat },
    Finish,
}

impl<'a> View for HashEvent<'a> {
    type V = HashEventModel;

    open spec fn view(&self) -> HashEventModel {
        match self {
            HashEvent::Packet(bytes) => HashEventModel::Packet(bytes@),
            HashEvent::FileMissing => HashEventModel::FileMissing,
            HashEvent::FileOpened => HashEventModel::FileOpened,
            HashEvent::Chunk(bytes) => HashEventModel::Chunk(bytes@),
        }
    }
}

impl<'a> View for HashAction<'a> {
    type V = HashActionModel;

    open spec fn view(&self) -> HashActionModel {
        match self {
            HashAction::SetupPacket { name, args } => HashActionModel::SetupPacket {
                name: name@,
                args: attribute_models(args@),
            },
            HashAction::OpenFile { filename } => HashActionModel::OpenFile { filename: filename@ },
            HashAction::ReadChunk { max_len } => HashActionModel::ReadChunk {
                max_len: *max_len as nat,
            },
            HashAction::Finish => HashActionModel::Finish,
        }
    }
}

/// The state of a calculation.
#[verifier::ext_equal]
pub struct HashRunState {
    /// The nodes not yet dealt with, the current element first.
    pub rest: Seq<Option<ElementModel>>,
    /// What is waited for.
    pub phase: HashPhase,
    /// The digests so far.
    pub digests: Seq<Seq<u8>>,
    /// How many bytes a packet of file contents holds at most.
    pub send_buffer_size: nat,
}

/// The state in which the next element among `rest` is up, or all is done.
pub open spec fn settle(
    rest: Seq<Option<ElementModel>>,
    digests: Seq<Seq<u8>>,
    send_buffer_size: nat,
) -> HashRunState
    decreases rest.len(),
{
    if rest.len() == 0 {
        HashRunState { rest, phase: HashPhase::Done, digests, send_buffer_size }
    } else if rest[0] is Some {
        HashRunState { rest, phase: HashPhase::Setup, digests, send_buffer_size }
    } else {
        settle(rest.drop_first(), digests, send_buffer_size)
    }
}

impl HashRunState {
    /// A state waits for something of an element, and of a file only where the
    /// element names one.
    pub open spec fn wf(self) -> bool {
        &&& self.phase == HashPhase::Done <==> self.rest.len() == 0
        &&& self.rest.len() > 0 ==> self.rest[0] is Some
        &&& self.phase == HashPhase::Open || self.phase == HashPhase::Read
            ==> self.rest[0]->0.file() is Some
    }

    /// The state after the current element.
    pub open spec fn advance(self, digests: Seq<Seq<u8>>) -> HashRunState {
        settle(self.rest.drop_first(), digests, self.send_buffer_size)
    }

    /// What is asked for.
    pub open spec fn action(self) -> HashActionModel {
        match self.phase {
            HashPhase::Setup => HashActionModel::SetupPacket {
                name: ascii_lowercase(self.rest[0]->0.name),
                args: self.rest[0]->0.attributes,
            },
            HashPhase::Open => HashActionModel::OpenFile { filename: self.rest[0]->0.file()->0 },
            HashPhase::Read => HashActionModel::ReadChunk { max_len: self.send_buffer_size },
            HashPhase::Done => HashActionModel::Finish,
        }
    }

    /// Whether `event` answers what is asked for. A read gives no more bytes than
    /// it was asked for.
    pub open spec fn accepts(self, event: HashEventModel) -> bool {
        match event {
            HashEventModel::Packet(bytes) => self.phase == HashPhase::Setup && bytes.len()
                <= SHA256_MAX_MESSAGE_LEN,
            HashEventModel::FileMissing => self.phase == HashPhase::Open,
            HashEventModel::FileOpened => self.phase == HashPhase::Open,
            HashEventModel::Chunk(bytes) => self.phase == HashPhase::Read && bytes.len()
                <= self.send_buffer_size && bytes.len() <= SHA256_MAX_MESSAGE_LEN,
        }
    }

    /// The state after an event that answers what was asked for.
    ///
    /// A packet is recorded. Then follow the contents of the element's file, in
    /// the pieces in which they are read, unless it names none or it is missing.
    pub open spec fn next(self, event: HashEventModel) -> HashRunState {
        match event {
            HashEventModel::Packet(bytes) => {
                let digests = self.digests.push(sha256(bytes)@);
                if self.rest[0]->0.file() is Some {
                    HashRunState { phase: HashPhase::Open, digests, ..self }
                } else {
                    self.advance(digests)
                }
            },
            HashEventModel::FileMissing => self.advance(self.digests),
            HashEventModel::FileOpened => HashRunState { phase: HashPhase::Read, ..self },
            HashEventModel::Chunk(bytes) => if bytes.len() == 0 {
                self.advance(self.digests)
            } else {
                HashRunState { digests: self.digests.push(sha256(bytes)@), ..self }
            },
        }
    }
}

/// A calculation of the digests for a program file.
pub struct HashRun {
    nodes: Vec<XmlNode>,
    pos: usize,
    phase: HashPhase,
    digests: Vec<Vec<u8>>,
    send_buffer_size: usize,
}

impl View for HashRun {
    type V = HashRunState;

    closed spec fn view(&self) -> HashRunState {
        HashRunState {
            rest: node_models(self.nodes@).skip(self.pos as int),
            phase: self.phase,
            digests: rows(self.digests@),
            send_buffer_size: self.send_buffer_size as nat,
        }
    }
}

/// Where the next element stands, from `from` on, or the number of nodes.
fn next_element(nodes: &Vec<XmlNode>, from: usize) -> (pos: usize)
    requires
        from <= nodes@.len(),
    ensures
        from <= pos <= nodes@.len(),
        pos < nodes@.len() ==> nodes@[pos as int]@ is Some,
        forall|digests: Seq<Seq<u8>>, size: nat|
            #[trigger]
            settle(node_models(nodes@).skip(from as int), digests, size) == (HashRunState {
                rest: node_models(nodes@).skip(pos as int),
                phase: if pos < nodes@.len() {
                    HashPhase::Setup
                } else {
                    HashPhase::Done
                },
                digests,
                send_buffer_size: size,
            }),
{
    let ghost models = node_models(nodes@);
    let mut pos: usize = from;
    while pos < nodes.len()
        invariant_except_break
            from <= pos <= nodes@.len(),
            models == node_models(nodes@),
            forall|digests: Seq<Seq<u8>>, size: nat|
                #[trigger]
                settle(models.skip(from as int), digests, size) == settle(
                    models.skip(pos as int),
                    digests,
                    size,
                ),
        ensures
            from <= pos <= nodes@.len(),
            pos < nodes@.len() ==> nodes@[pos as int]@ is Some,
            forall|digests: Seq<Seq<u8>>, size: nat|
                #[trigger]
                settle(models.skip(from as int), digests, size) == settle(
                    models.skip(pos as int),
                    digests,
                    size,
                ),
        decreases nodes@.len() - pos,
    {
        if let XmlNode::Element(_) = &nodes[pos] {
            break;
        }
        assert(models.skip(pos as int).drop_first() =~= models.skip(pos + 1));
        assert(models.skip(pos as int)[0] is None);
        pos = pos + 1;
    }
    pos
}

impl HashRun {
    #[verifier::type_invariant]
    closed spec fn inv(self) -> bool {
        &&& self.pos <= self.nodes@.len()
        &&& self@.wf()
    }

    /// Begins the calculation for a program file with these nodes.
    pub fn new(nodes: Vec<XmlNode>, send_buffer_size: usize) -> (run: HashRun)
        ensures
            run@ == settle(node_models(nodes@), Seq::empty(), send_buffer_size as nat),
    {
        let pos: usize = next_element(&nodes, 0);
        proof {
            assert(node_models(nodes@).skip(0) =~= node_models(nodes@));
            assert(rows(Seq::empty()) =~= Seq::<Seq<u8>>::empty());
        }
        let phase: HashPhase = if pos < nodes.len() {
            HashPhase::Setup
        } else {
            HashPhase::Done
        };
        HashRun { nodes, pos, phase, digests: Vec::new(), send_buffer_size }
    }

    /// What is asked for.
    pub fn action(&self) -> (action: HashAction<'_>)
        ensures
            action@ == self@.action(),
    {
        proof {
            use_type_invariant(self);
        }
        match self.phase {
            HashPhase::Done => HashAction::Finish,
            HashPhase::Read => HashAction::ReadChunk { max_len: self.send_buffer_size },
            HashPhase::Setup => match &self.nodes[self.pos] {
                XmlNode::Element(element) => HashAction::SetupPacket {
                    name: element.name.as_str().to_ascii_lowercase(),
                    args: &element.attributes,
                },
                XmlNode::Other => HashAction::Finish,
            },
            HashPhase::Open => match &self.nodes[self.pos] {
                XmlNode::Element(element) => match element.file() {
                    Some(filename) => HashAction::OpenFile { filename },
                    None => HashAction::Finish,
                },
                XmlNode::Other => HashAction::Finish,
            },
        }
    }

    /// Goes on to the next element.
    fn advance(self) -> (run: HashRun)
        requires
            self@.phase != HashPhase::Done,
        ensures
            run@ == self@.advance(self@.digests),
    {
        proof {
            use_type_invariant(&self);
        }
        let HashRun { nodes, pos, phase: _, digests, send_buffer_size } = self;
        assert(node_models(nodes@).skip(pos as int).drop_first() =~= node_models(nodes@).skip(
            pos + 1,
        ));
        assert(pos < nodes.len());
        let next_pos: usize = next_element(&nodes, pos + 1);
        let phase: HashPhase = if next_pos < nodes.len() {
            HashPhase::Setup
        } else {
            HashPhase::Done
        };
        HashRun { nodes, pos: next_pos, phase, digests, send_buffer_size }
    }

    /// Goes on with the answer to what was asked for.
    pub fn step(self, event: HashEvent<'_>) -> (run: HashRun)
        requires
            self@.accepts(event@),
        ensures
            run@ == self@.next(event@),
    {
        proof {
            use_type_invariant(&self);
        }
        match event {
            HashEvent::Packet(bytes) => {
                let HashRun { nodes, pos, phase, digests, send_buffer_size } = self;
                let mut digests = digests;
                let has_file: bool = match &nodes[pos] {
                    XmlNode::Element(element) => element.file().is_some(),
                    XmlNode::Other => false,
                };
                let ghost before = digests@;
                digests.push(digest(bytes));
                assert(rows(digests@) =~= rows(before).push(sha256(bytes@)@));
                if has_file {
                    HashRun { nodes, pos, phase: HashPhase::Open, digests, send_buffer_size }
                } else {
                    let run = HashRun { nodes, pos, phase, digests, send_buffer_size };
                    run.advance()
                }
            },
            HashEvent::FileMissing => self.advance(),
            HashEvent::FileOpened => {
                let HashRun { nodes, pos, phase: _, digests, send_buffer_size } = self;
                HashRun { nodes, pos, phase: HashPhase::Read, digests, send_buffer_size }
            },
            HashEvent::Chunk(bytes) => if bytes.len() == 0 {
                self.advance()
            } else {
                let HashRun { nodes, pos, phase, digests, send_buffer_size } = self;
                let mut digests = digests;
                let ghost before = digests@;
                digests.push(digest(bytes));
                assert(rows(digests@) =~= rows(before).push(sha256(bytes@)@));
                HashRun { nodes, pos, phase, digests, send_buffer_size }
            },
        }
    }

    /// The digests, once all are there.
    pub fn into_digests(self) -> (digests: Vec<Vec<u8>>)
        requires
            self@.action() is Finish,
        ensures
            rows(digests@) == self@.digests,
    {
        self.digests
    }
}

/// Begins the calculation of the digests for a program file: of the packet of
/// every element and of the contents of every file that an element names, in
/// packets of at most `send_buffer_size` bytes.
pub fn calc_hashes(program_file: &[u8], send_buffer_size: usize) -> (res: Result<
    HashRun,
    ProgramError,
>)
    ensures
        match res {
            Ok(run) => xml_root_children(program_file@) matches Some(nodes) && run@ == settle(
                nodes,
                Seq::empty(),
                send_buffer_size as nat,
            ),
            Err(ProgramError::Xml(_)) => xml_root_children(program_file@) is None,
        },
{
    match parse_program(program_file) {
        Ok(nodes) => Ok(HashRun::new(nodes, send_buffer_size)),
        Err(e) => Err(e),
    }
}

/// What lies outside the calculation for one element: the packet of its command,
/// and the pieces in which its file is read, if that file exists.
pub struct ElementAnswer {
    pub packet: Seq<u8>,
    pub file: Option<Seq<Seq<u8>>>,
}

impl ElementAnswer {
    /// Packets and pieces are what SHA-256 takes, and a read gives some bytes and
    /// no more than it was asked for.
    pub open spec fn wf(self, send_buffer_size: nat) -> bool {
        &&& self.packet.len() <= SHA256_MAX_MESSAGE_LEN
        &&& self.file matches Some(pieces) ==> forall|i: int|
            0 <= i < pieces.len() ==> 0 < (#[trigger] pieces[i]).len() <= send_buffer_size
                && pieces[i].len() <= SHA256_MAX_MESSAGE_LEN
    }
}

/// The digests of byte strings.
pub open spec fn digests_of(pieces: Seq<Seq<u8>>) -> Seq<Seq<u8>> {
    pieces.map_values(|piece: Seq<u8>| sha256(piece)@)
}

/// The digests of an element: that of its packet, and those of the pieces of its
/// file.
pub open spec fn element_digests(element: ElementModel, answer: ElementAnswer) -> Seq<Seq<u8>> {
    seq![sha256(answer.packet)@] + match (element.file(), answer.file) {
        (Some(_), Some(pieces)) => digests_of(pieces),
        _ => Seq::empty(),
    }
}

/// The events of reading byte strings.
pub open spec fn chunk_events(pieces: Seq<Seq<u8>>) -> Seq<HashEventModel> {
    pieces.map_values(|piece: Seq<u8>| HashEventModel::Chunk(piece))
}

/// The events of an element.
pub open spec fn element_events(element: ElementModel, answer: ElementAnswer) -> Seq<
    HashEventModel,
> {
    seq![HashEventModel::Packet(answer.packet)] + match (element.file(), answer.file) {
        (Some(_), Some(pieces)) => seq![HashEventModel::FileOpened] + chunk_events(pieces)
            + seq![HashEventModel::Chunk(Seq::empty())],
        (Some(_), None) => seq![HashEventModel::FileMissing],
        (None, _) => Seq::empty(),
    }
}

/// The elements among nodes.
pub open spec fn elements_of(nodes: Seq<Option<ElementModel>>) -> Seq<ElementModel>
    decreases nodes.len(),
{
    if nodes.len() == 0 {
        Seq::empty()
    } else {
        match nodes[0] {
            Some(element) => seq![element] + elements_of(nodes.drop_first()),
            None => elements_of(nodes.drop_first()),
        }
    }
}

/// The digests of all elements, in order.
pub open spec fn program_digests(
    elements: Seq<ElementModel>,
    answers: Seq<ElementAnswer>,
) -> Seq<Seq<u8>>
    decreases elements.len(),
{
    if elements.len() == 0 {
        Seq::empty()
    } else {
        element_digests(elements[0], answers[0]) + program_digests(
            elements.drop_first(),
            answers.drop_first(),
        )
    }
}

/// The events of all elements, in order.
pub open spec fn program_events(
    elements: Seq<ElementModel>,
    answers: Seq<ElementAnswer>,
) -> Seq<HashEventModel>
    decreases elements.len(),
{
    if elements.len() == 0 {
        Seq::empty()
    } else {
        element_events(elements[0], answers[0]) + program_events(
            elements.drop_first(),
            answers.drop_first(),
        )
    }
}

/// The state after one event after another.
pub open spec fn run_events(state: HashRunState, events: Seq<HashEventModel>) -> HashRunState
    decreases events.len(),
{
    if events.len() == 0 {
        state
    } else {
        run_events(state.next(events[0]), events.drop_first())
    }
}

/// Whether each event answers what is asked for when it comes.
pub open spec fn all_accepted(state: HashRunState, events: Seq<HashEventModel>) -> bool
    decreases events.len(),
{
    events.len() == 0 || (state.accepts(events[0]) && all_accepted(
        state.next(events[0]),
        events.drop_first(),
    ))
}

/// Events can be run in two parts.
proof fn lemma_run_concat(
    state: HashRunState,
    first: Seq<HashEventModel>,
    second: Seq<HashEventModel>,
)
    ensures
        run_events(state, first + second) == run_events(run_events(state, first), second),
        all_accepted(state, first + second) <==> all_accepted(state, first) && all_accepted(
            run_events(state, first),
            second,
        ),
    decreases first.len(),
{
    if first.len() == 0 {
        assert(first + second =~= second);
    } else {
        assert((first + second).drop_first() =~= first.drop_first() + second);
        lemma_run_concat(state.next(first[0]), first.drop_first(), second);
    }
}

/// Reading the pieces of a file records their digests.
proof fn lemma_run_pieces(state: HashRunState, pieces: Seq<Seq<u8>>)
    requires
        state.phase == HashPhase::Read,
        forall|i: int|
            0 <= i < pieces.len() ==> 0 < (#[trigger] pieces[i]).len() <= state.send_buffer_size
                && pieces[i].len() <= SHA256_MAX_MESSAGE_LEN,
    ensures
        ({
            let events = chunk_events(pieces);
            &&& run_events(state, events) == (HashRunState {
                digests: state.digests + digests_of(pieces),
                ..state
            })
            &&& all_accepted(state, events)
        }),
    decreases pieces.len(),
{
    let events = chunk_events(pieces);
    if pieces.len() == 0 {
        assert(state.digests + digests_of(pieces) =~= state.digests);
    } else {
        let left = pieces.drop_first();
        let after = state.next(events[0]);
        assert(events.drop_first() =~= chunk_events(left));
        lemma_run_pieces(after, left);
        assert(after.digests + digests_of(left) =~= state.digests + digests_of(pieces));
    }
}

/// The events of the current element lead to the next one and record the digests
/// of the element.
proof fn lemma_run_element(state: HashRunState, answer: ElementAnswer)
    requires
        state.wf(),
        state.phase == HashPhase::Setup,
        answer.wf(state.send_buffer_size),
    ensures
        ({
            let element = state.rest[0]->0;
            let events = element_events(element, answer);
            &&& run_events(state, events) == state.advance(
                state.digests + element_digests(element, answer),
            )
            &&& all_accepted(state, events)
        }),
{
    let element = state.rest[0]->0;
    let events = element_events(element, answer);
    let packet = HashEventModel::Packet(answer.packet);
    let head = seq![packet];
    let opened = state.next(packet);
    assert(head.drop_first() =~= Seq::empty());
    assert(run_events(state, head) == opened && all_accepted(state, head)) by {
        reveal_with_fuel(run_events, 2);
        reveal_with_fuel(all_accepted, 2);
    }
    match (element.file(), answer.file) {
        (Some(_), Some(pieces)) => {
            let open = seq![HashEventModel::FileOpened];
            let read = chunk_events(pieces);
            let close = seq![HashEventModel::Chunk(Seq::empty())];
            let reading = opened.next(HashEventModel::FileOpened);
            assert(open.drop_first() =~= Seq::empty());
            assert(run_events(opened, open) == reading && all_accepted(opened, open)) by {
                reveal_with_fuel(run_events, 2);
                reveal_with_fuel(all_accepted, 2);
            }
            lemma_run_pieces(reading, pieces);
            let all_read = run_events(reading, read);
            assert(close.drop_first() =~= Seq::empty());
            assert(run_events(all_read, close) == all_read.next(close[0]) && all_accepted(
                all_read,
                close,
            )) by {
                reveal_with_fuel(run_events, 2);
                reveal_with_fuel(all_accepted, 2);
            }
            lemma_run_concat(opened, open, read);
            lemma_run_concat(opened, open + read, close);
            lemma_run_concat(state, head, open + read + close);
            assert(events =~= head + (open + read + close));
            assert(all_read.digests =~= state.digests + element_digests(element, answer));
        },
        (Some(_), None) => {
            let missing = seq![HashEventModel::FileMissing];
            assert(missing.drop_first() =~= Seq::empty());
            assert(run_events(opened, missing) == opened.next(missing[0]) && all_accepted(
                opened,
                missing,
            )) by {
                reveal_with_fuel(run_events, 2);
                reveal_with_fuel(all_accepted, 2);
            }
            lemma_run_concat(state, head, missing);
            assert(opened.digests =~= state.digests + element_digests(element, answer));
        },
        (None, _) => {
            assert(events =~= head);
            assert(state.digests.push(sha256(answer.packet)@) =~= state.digests + element_digests(
                element,
                answer,
            ));
        },
    }
}

/// The state reached when the first `i` elements have been answered for.
pub open spec fn before_element(
    nodes: Seq<Option<ElementModel>>,
    answers: Seq<ElementAnswer>,
    digests: Seq<Seq<u8>>,
    send_buffer_size: nat,
    i: int,
) -> HashRunState {
    run_events(
        settle(nodes, digests, send_buffer_size),
        program_events(elements_of(nodes).take(i), answers.take(i)),
    )
}

/// Whether `state` asks for all that belongs to `element`, and for each thing when
/// it is that thing's turn: for the packet of its command, with its name in lower
/// case and its attributes as arguments; after the packet for the file that it
/// names, if it names one; and, if that file is there, for more of it after each of
/// its pieces.
pub open spec fn asks_for_element(
    state: HashRunState,
    element: ElementModel,
    answer: ElementAnswer,
) -> bool {
    let packet = HashEventModel::Packet(answer.packet);
    &&& state.action() == HashActionModel::SetupPacket {
        name: ascii_lowercase(element.name),
        args: element.attributes,
    }
    &&& element.file() matches Some(filename) ==> {
        &&& state.next(packet).action() == (HashActionModel::OpenFile { filename })
        &&& answer.file matches Some(pieces) ==> forall|j: int|
            0 <= j <= pieces.len() ==> run_events(
                state.next(packet).next(HashEventModel::FileOpened),
                chunk_events(#[trigger] pieces.take(j)),
            ).action() == (HashActionModel::ReadChunk { max_len: state.send_buffer_size })
    }
}

/// The current element is the one asked for.
proof fn lemma_asks_for_current(state: HashRunState, answer: ElementAnswer)
    requires
        state.wf(),
        state.phase == HashPhase::Setup,
        answer.wf(state.send_buffer_size),
    ensures
        asks_for_element(state, state.rest[0]->0, answer),
{
    let element = state.rest[0]->0;
    let reading = state.next(HashEventModel::Packet(answer.packet)).next(
        HashEventModel::FileOpened,
    );
    if element.file() is Some {
        if let Some(pieces) = answer.file {
            assert forall|j: int| 0 <= j <= pieces.len() implies run_events(
                reading,
                chunk_events(#[trigger] pieces.take(j)),
            ).action() == (HashActionModel::ReadChunk { max_len: state.send_buffer_size }) by {
                lemma_run_pieces(reading, pieces.take(j));
            }
        }
    }
}

/// When the first `i` elements have been answered for, element `i` is asked for.
proof fn lemma_run_asks(
    nodes: Seq<Option<ElementModel>>,
    answers: Seq<ElementAnswer>,
    digests: Seq<Seq<u8>>,
    send_buffer_size: nat,
    i: int,
)
    requires
        answers.len() == elements_of(nodes).len(),
        forall|j: int| 0 <= j < answers.len() ==> (#[trigger] answers[j]).wf(send_buffer_size),
        0 <= i < answers.len(),
    ensures
        asks_for_element(
            before_element(nodes, answers, digests, send_buffer_size, i),
            elements_of(nodes)[i],
            answers[i],
        ),
    decreases nodes.len(),
{
    let elements = elements_of(nodes);
    let start = settle(nodes, digests, send_buffer_size);
    if nodes[0] is None {
        lemma_run_asks(nodes.drop_first(), answers, digests, send_buffer_size, i);
    } else if i == 0 {
        assert(elements.take(0) =~= Seq::empty());
        lemma_asks_for_current(start, answers[0]);
    } else {
        let left = nodes.drop_first();
        let others = answers.drop_first();
        assert(elements.drop_first() =~= elements_of(left));
        assert forall|j: int| 0 <= j < others.len() implies (#[trigger] others[j]).wf(
            send_buffer_size,
        ) by {
            assert(answers[j + 1].wf(send_buffer_size));
        }
        lemma_run_element(start, answers[0]);
        let more = digests + element_digests(elements[0], answers[0]);
        lemma_run_asks(left, others, more, send_buffer_size, i - 1);
        assert(elements.take(i).drop_first() =~= elements_of(left).take(i - 1));
        assert(answers.take(i).drop_first() =~= others.take(i - 1));
        lemma_run_concat(
            start,
            element_events(elements[0], answers[0]),
            program_events(elements_of(left).take(i - 1), others.take(i - 1)),
        );
    }
}

/// A calculation that is given, for every element, its packet and the pieces of
/// its file, asks for those of each element in turn, finishes, and has then
/// recorded, in order, for every element the digest of its packet and those of the
/// pieces, if the element names a file and the file exists.
pub proof fn law_run_records_all(
    nodes: Seq<Option<ElementModel>>,
    answers: Seq<ElementAnswer>,
    digests: Seq<Seq<u8>>,
    send_buffer_size: nat,
)
    requires
        answers.len() == elements_of(nodes).len(),
        forall|i: int| 0 <= i < answers.len() ==> (#[trigger] answers[i]).wf(send_buffer_size),
    ensures
        ({
            let events = program_events(elements_of(nodes), answers);
            let start = settle(nodes, digests, send_buffer_size);
            &&& all_accepted(start, events)
            &&& run_events(start, events).action() is Finish
            &&& run_events(start, events).digests == digests + program_digests(
                elements_of(nodes),
                answers,
            )
        }),
        forall|i: int|
            0 <= i < answers.len() ==> asks_for_element(
                #[trigger] before_element(nodes, answers, digests, send_buffer_size, i),
                elements_of(nodes)[i],
                answers[i],
            ),
    decreases nodes.len(),
{
    assert forall|i: int| 0 <= i < answers.len() implies asks_for_element(
        #[trigger] before_element(nodes, answers, digests, send_buffer_size, i),
        elements_of(nodes)[i],
        answers[i],
    ) by {
        lemma_run_asks(nodes, answers, digests, send_buffer_size, i);
    }
    let elements = elements_of(nodes);
    let events = program_events(elements, answers);
    let start = settle(nodes, digests, send_buffer_size);
    if nodes.len() == 0 {
        assert(digests + program_digests(elements, answers) =~= digests);
    } else if nodes[0] is None {
        law_run_records_all(nodes.drop_first(), answers, digests, send_buffer_size);
    } else {
        let left = nodes.drop_first();
        let others = answers.drop_first();
        assert(elements.drop_first() =~= elements_of(left));
        lemma_run_element(start, answers[0]);
        let more = digests + element_digests(elements[0], answers[0]);
        assert forall|i: int| 0 <= i < others.len() implies (#[trigger] others[i]).wf(
            send_buffer_size,
        ) by {
            assert(answers[i + 1].wf(send_buffer_size));
        }
        law_run_records_all(left, others, more, send_buffer_size);
        lemma_run_concat(
            start,
            element_events(elements[0], answers[0]),
            program_events(elements_of(left), others),
        );
        assert(more + program_digests(elements_of(left), others) =~= digests + program_digests(
            elements,
            answers,
        ));
    }
}

/// The digests that an event leaves behind.
pub open spec fn event_digests(event: HashEventModel) -> Seq<Seq<u8>> {
    match event {
        HashEventModel::Packet(bytes) => seq![sha256(bytes)@],
        HashEventModel::Chunk(bytes) => if bytes.len() == 0 {
            Seq::empty()
        } else {
            seq![sha256(bytes)@]
        },
        _ => Seq::empty(),
    }
}

/// However a calculation is driven, it records the digest of each packet and each
/// piece of a file that it is given, in the order in which they come, and nothing
/// else. Where all digests before had the length of a SHA-256 digest, all have it
/// after.
pub proof fn law_run_records_only_answers(state: HashRunState, events: Seq<HashEventModel>)
    ensures
        run_events(state, events).digests == state.digests + events.map_values(
            |event: HashEventModel| event_digests(event),
        ).flatten(),
        all_digest_sized(state.digests) ==> all_digest_sized(run_events(state, events).digests),
    decreases events.len(),
{
    let per_event = events.map_values(|event: HashEventModel| event_digests(event));
    if events.len() == 0 {
        assert(state.digests + per_event.flatten() =~= state.digests);
    } else {
        let event = events[0];
        let left = events.drop_first();
        lemma_settle_digests(state.rest.drop_first(), state.digests, state.send_buffer_size);
        if let HashEventModel::Packet(bytes) = event {
            lemma_settle_digests(
                state.rest.drop_first(),
                state.digests.push(sha256(bytes)@),
                state.send_buffer_size,
            );
        }
        assert(state.next(event).digests =~= state.digests + event_digests(event));
        law_run_records_only_answers(state.next(event), left);
        assert(per_event.drop_first() =~= left.map_values(
            |event: HashEventModel| event_digests(event),
        ));
        assert(run_events(state, events).digests =~= state.digests + per_event.flatten());
    }
}

/// Going on to the next element leaves the digests alone.
proof fn lemma_settle_digests(
    rest: Seq<Option<ElementModel>>,
    digests: Seq<Seq<u8>>,
    send_buffer_size: nat,
)
    ensures
        settle(rest, digests, send_buffer_size).digests == digests,
    decreases rest.len(),
{
    if rest.len() > 0 && rest[0] is None {
        lemma_settle_digests(rest.drop_first(), digests, send_buffer_size);
    }
}

/// A calculation begins, and goes on after an element, with the next element: the
/// nodes up to it are passed over, and no digest is added or lost. Where no element
/// is left, it finishes.
pub proof fn law_settle(
    nodes: Seq<Option<ElementModel>>,
    digests: Seq<Seq<u8>>,
    send_buffer_size: nat,
    k: int,
)
    requires
        0 <= k <= nodes.len(),
        forall|j: int| 0 <= j < k ==> (#[trigger] nodes[j]) is None,
        k < nodes.len() ==> nodes[k] is Some,
    ensures
        settle(nodes, digests, send_buffer_size) == (HashRunState {
            rest: nodes.skip(k),
            phase: if k < nodes.len() {
                HashPhase::Setup
            } else {
                HashPhase::Done
            },
            digests,
            send_buffer_size,
        }),
    decreases nodes.len(),
{
    if k == 0 {
        assert(nodes.skip(0) =~= nodes);
    } else {
        let left = nodes.drop_first();
        assert(nodes[0] is None);
        assert forall|j: int| 0 <= j < k - 1 implies (#[trigger] left[j]) is None by {
            assert(nodes[j + 1] is None);
        }
        law_settle(left, digests, send_buffer_size, k - 1);
        assert(left.skip(k - 1) =~= nodes.skip(k));
    }
}

/// What is asked for. Of an element whose packet is due, that packet: the command is
/// the element's name with its capital letters in lower case, and the arguments are
/// its attributes, all of them and in order. Of a file that is open, as many bytes as
/// a packet holds. At the end, nothing more.
pub proof fn law_action(state: HashRunState, element: ElementModel, i: int)
    requires
        state.rest.len() > 0,
        state.rest[0] == Some(element),
    ensures
        state.phase == HashPhase::Setup ==> {
            &&& state.action() matches HashActionModel::SetupPacket { name, args }
            &&& args == element.attributes
            &&& name.len() == element.name.len()
            &&& 0 <= i < name.len() && 'A' <= element.name[i] <= 'Z' ==> name[i] as int
                == element.name[i] as int + 32
            &&& 0 <= i < name.len() && !('A' <= element.name[i] <= 'Z') ==> name[i]
                == element.name[i]
        },
        state.phase == HashPhase::Read ==> state.action() == (HashActionModel::ReadChunk {
            max_len: state.send_buffer_size,
        }),
        state.phase == HashPhase::Done <==> state.action() is Finish,
        state.phase == HashPhase::Open <==> state.action() is OpenFile,
{
    law_ascii_lowercase(element.name, i);
}

/// What answers what is asked for: to a packet, any that SHA-256 takes; to a file,
/// that it is missing or open; to a read, no more bytes than were asked for. Nothing
/// else does.
pub proof fn law_accepts(state: HashRunState, bytes: Seq<u8>)
    ensures
        state.accepts(HashEventModel::Packet(bytes)) <==> state.phase == HashPhase::Setup
            && bytes.len() <= 0x1fff_ffff_ffff_ffff,
        state.accepts(HashEventModel::FileMissing) <==> state.phase == HashPhase::Open,
        state.accepts(HashEventModel::FileOpened) <==> state.phase == HashPhase::Open,
        state.accepts(HashEventModel::Chunk(bytes)) <==> state.phase == HashPhase::Read
            && bytes.len() <= state.send_buffer_size && bytes.len() <= 0x1fff_ffff_ffff_ffff,
{
}

/// After the packet of an element that has a non-empty attribute `filename`, the
/// first of that name being attribute `k`, the digest of the packet is recorded and
/// exactly that file is asked for, whatever the element's other attributes are.
pub proof fn law_packet_then_file(
    state: HashRunState,
    element: ElementModel,
    packet: Seq<u8>,
    k: int,
)
    requires
        state.rest.len() > 0,
        state.rest[0] == Some(element),
        0 <= k < element.attributes.len(),
        element.attributes[k].0 == "filename"@,
        forall|j: int| 0 <= j < k ==> (#[trigger] element.attributes[j]).0 != "filename"@,
        element.attributes[k].1.len() > 0,
    ensures
        state.next(HashEventModel::Packet(packet)) == (HashRunState {
            phase: HashPhase::Open,
            digests: state.digests.push(sha256(packet)@),
            ..state
        }),
        state.next(HashEventModel::Packet(packet)).action() == (HashActionModel::OpenFile {
            filename: element.attributes[k].1,
        }),
{
    law_file(element, k);
}

/// After the packet of an element that has no attribute `filename`, or an empty one,
/// the digest of the packet is recorded and no file is asked for: the next element is
/// up, node `next` of the rest, or the end.
pub proof fn law_packet_without_file(
    state: HashRunState,
    element: ElementModel,
    packet: Seq<u8>,
    next: int,
)
    requires
        state.rest.len() > 0,
        state.rest[0] == Some(element),
        forall|k: int|
            0 <= k < element.attributes.len() && (#[trigger] element.attributes[k]).0
                == "filename"@ && (forall|j: int|
                0 <= j < k ==> (#[trigger] element.attributes[j]).0 != "filename"@)
                ==> element.attributes[k].1.len() == 0,
        0 < next <= state.rest.len(),
        forall|j: int| 0 < j < next ==> (#[trigger] state.rest[j]) is None,
        next < state.rest.len() ==> state.rest[next] is Some,
    ensures
        state.next(HashEventModel::Packet(packet)) == (HashRunState {
            rest: state.rest.skip(next),
            phase: if next < state.rest.len() {
                HashPhase::Setup
            } else {
                HashPhase::Done
            },
            digests: state.digests.push(sha256(packet)@),
            send_buffer_size: state.send_buffer_size,
        }),
{
    lemma_first_filename(element, element.attributes.len() as int);
    lemma_advance(state, state.digests.push(sha256(packet)@), next);
}

/// Among the first `n` attributes either none is called `filename`, or one of them
/// is the first that is; without a file its value is empty.
proof fn lemma_first_filename(element: ElementModel, n: int)
    requires
        0 <= n <= element.attributes.len(),
        forall|k: int|
            0 <= k < element.attributes.len() && (#[trigger] element.attributes[k]).0
                == "filename"@ && (forall|j: int|
                0 <= j < k ==> (#[trigger] element.attributes[j]).0 != "filename"@)
                ==> element.attributes[k].1.len() == 0,
    ensures
        element.file() is None || forall|j: int|
            0 <= j < n ==> (#[trigger] element.attributes[j]).0 != "filename"@,
        n == element.attributes.len() ==> element.file() is None,
    decreases n,
{
    if n > 0 {
        lemma_first_filename(element, n - 1);
        if element.file() is Some && element.attributes[n - 1].0 == "filename"@ {
            law_file(element, n - 1);
        }
    }
    if n == element.attributes.len() && element.file() is Some {
        law_no_file(element);
    }
}

/// Going on after the current element.
proof fn lemma_advance(state: HashRunState, digests: Seq<Seq<u8>>, next: int)
    requires
        0 < next <= state.rest.len(),
        forall|j: int| 0 < j < next ==> (#[trigger] state.rest[j]) is None,
        next < state.rest.len() ==> state.rest[next] is Some,
    ensures
        state.advance(digests) == (HashRunState {
            rest: state.rest.skip(next),
            phase: if next < state.rest.len() {
                HashPhase::Setup
            } else {
                HashPhase::Done
            },
            digests,
            send_buffer_size: state.send_buffer_size,
        }),
{
    let left = state.rest.drop_first();
    assert forall|j: int| 0 <= j < next - 1 implies (#[trigger] left[j]) is None by {
        assert(state.rest[j + 1] is None);
    }
    law_settle(left, digests, state.send_buffer_size, next - 1);
    assert(left.skip(next - 1) =~= state.rest.skip(next));
}

/// A file that is open is read piece by piece: opening it records nothing, and every
/// piece that holds any bytes has its digest recorded, whatever its length, and more
/// is asked for.
pub proof fn law_read_pieces(state: HashRunState, bytes: Seq<u8>)
    requires
        bytes.len() > 0,
    ensures
        state.next(HashEventModel::FileOpened) == (HashRunState {
            phase: HashPhase::Read,
            ..state
        }),
        state.next(HashEventModel::Chunk(bytes)) == (HashRunState {
            digests: state.digests.push(sha256(bytes)@),
            ..state
        }),
{
}

/// A file that is missing, and the end of a file, record nothing: the next element is
/// up, node `next` of the rest, or the end.
pub proof fn law_file_over(state: HashRunState, next: int)
    requires
        0 < next <= state.rest.len(),
        forall|j: int| 0 < j < next ==> (#[trigger] state.rest[j]) is None,
        next < state.rest.len() ==> state.rest[next] is Some,
    ensures
        state.next(HashEventModel::FileMissing) == (HashRunState {
            rest: state.rest.skip(next),
            phase: if next < state.rest.len() {
                HashPhase::Setup
            } else {
                HashPhase::Done
            },
            ..state
        }),
        state.next(HashEventModel::Chunk(Seq::empty())) == state.next(HashEventModel::FileMissing),
{
    lemma_advance(state, state.digests, next);
}

/// An event says what it carries, byte for byte.
pub proof fn law_event_views<'a>(event: HashEvent<'a>)
    ensures
        event matches HashEvent::Packet(bytes) ==> event@ == HashEventModel::Packet(bytes@),
        event is FileMissing ==> event@ == HashEventModel::FileMissing,
        event is FileOpened ==> event@ == HashEventModel::FileOpened,
        event matches HashEvent::Chunk(bytes) ==> event@ == HashEventModel::Chunk(bytes@),
{
}

/// An action asks for what it carries, to the letter.
pub proof fn law_action_views<'a>(action: HashAction<'a>, k: int)
    ensures
        action matches HashAction::SetupPacket { name, args } ==> {
            &&& action@ matches HashActionModel::SetupPacket { name: asked, args: given }
            &&& asked == name@
            &&& given.len() == args@.len()
            &&& 0 <= k < args@.len() ==> given[k] == (args@[k].0@, args@[k].1@)
        },
        action matches HashAction::OpenFile { filename } ==> action@ == (
        HashActionModel::OpenFile { filename: filename@ }),
        action matches HashAction::ReadChunk { max_len } ==> action@ == (
        HashActionModel::ReadChunk { max_len: max_len as nat }),
        action is Finish ==> action@ is Finish,
{
}

} // verus!
