//! The settings of a Firehose session, and the channel to a device.
use crate::digest::{digest, sha256, SHA256_MAX_MESSAGE_LEN};
use crate::text::str_eq;
use vstd::prelude::*;
use vstd::slice::slice_subrange;

verus! {

/// Common responses, indicating success and failure respectively.
#[derive(Copy, Clone, Debug, PartialEq, Eq, Structural)]
pub enum FirehoseStatus {
    Ack,
    Nak,
}

/// Why a setting could not be read from its name.
#[derive(Copy, Clone, Debug, PartialEq, Eq, Structural)]
pub enum NameError {
    /// The name is not that of a backend.
    UnknownBackend,
    /// The name is not that of a storage type.
    UnknownStorageType,
    /// The name is not that of a reset mode.
    InvalidInput,
}

impl NameError {
    /// The text of the error.
    pub open spec fn text(self) -> Seq<char> {
        match self {
            NameError::UnknownBackend => "Unknown backend"@,
            NameError::UnknownStorageType => "Unknown storage type"@,
            NameError::InvalidInput => "invalid input parameter"@,
        }
    }

    /// The text of the error.
    pub fn to_string(&self) -> (text: String)
        ensures
            text@ == self.text(),
    {
        match self {
            NameError::UnknownBackend => "Unknown backend".to_owned(),
            NameError::UnknownStorageType => "Unknown storage type".to_owned(),
            NameError::InvalidInput => "invalid input parameter".to_owned(),
        }
    }
}

/// How the host talks to the device.
#[derive(Clone, Copy, Debug, PartialEq, Eq, Structural)]
pub enum QdlBackend {
    Serial,
    Usb,
}

impl QdlBackend {
    /// The backend of that name, if there is one.
    pub open spec fn named(name: Seq<char>) -> Option<QdlBackend> {
        if name == "serial"@ {
            Some(QdlBackend::Serial)
        } else if name == "usb"@ {
            Some(QdlBackend::Usb)
        } else {
            None
        }
    }

    /// The backend to use unless told otherwise: the serial port on Windows, USB
    /// on every other system.
    pub fn default(target_is_windows: bool) -> (backend: QdlBackend)
        ensures
            backend == (if target_is_windows {
                QdlBackend::Serial
            } else {
                QdlBackend::Usb
            }),
    {
        match target_is_windows {
            true => QdlBackend::Serial,
            false => QdlBackend::Usb,
        }
    }
}

impl std::str::FromStr for QdlBackend {
    type Err = NameError;

    fn from_str(s: &str) -> (res: Result<QdlBackend, NameError>)
        ensures
            res == (match QdlBackend::named(s@) {
                Some(backend) => Ok(backend),
                None => Err(NameError::UnknownBackend),
            }),
    {
        if str_eq(s, "serial") {
            Ok(QdlBackend::Serial)
        } else if str_eq(s, "usb") {
            Ok(QdlBackend::Usb)
        } else {
            Err(NameError::UnknownBackend)
        }
    }
}

/// Supported storage media types.
#[derive(Clone, Copy, Debug, PartialEq, Eq, Structural)]
pub enum FirehoseStorageType {
    Emmc,
    Ufs,
    Nand,
    Nvme,
    Spinor,
}

impl FirehoseStorageType {
    /// The name of the storage type.
    pub open spec fn name(self) -> Seq<char> {
        match self {
            FirehoseStorageType::Emmc => "emmc"@,
            FirehoseStorageType::Ufs => "ufs"@,
            FirehoseStorageType::Nand => "nand"@,
            FirehoseStorageType::Nvme => "nvme"@,
            FirehoseStorageType::Spinor => "spinor"@,
        }
    }

    /// The storage type of that name, if there is one.
    pub open spec fn named(name: Seq<char>) -> Option<FirehoseStorageType> {
        if name == "emmc"@ {
            Some(FirehoseStorageType::Emmc)
        } else if name == "ufs"@ {
            Some(FirehoseStorageType::Ufs)
        } else if name == "nand"@ {
            Some(FirehoseStorageType::Nand)
        } else if name == "nvme"@ {
            Some(FirehoseStorageType::Nvme)
        } else if name == "spinor"@ {
            Some(FirehoseStorageType::Spinor)
        } else {
            None
        }
    }

    /// The name of the storage type.
    pub fn to_string(&self) -> (name: String)
        ensures
            name@ == self.name(),
    {
        match self {
            FirehoseStorageType::Emmc => "emmc".to_owned(),
            FirehoseStorageType::Ufs => "ufs".to_owned(),
            FirehoseStorageType::Nand => "nand".to_owned(),
            FirehoseStorageType::Nvme => "nvme".to_owned(),
            FirehoseStorageType::Spinor => "spinor".to_owned(),
        }
    }
}

impl std::str::FromStr for FirehoseStorageType {
    type Err = NameError;

    fn from_str(input: &str) -> (res: Result<FirehoseStorageType, NameError>)
        ensures
            res == (match FirehoseStorageType::named(input@) {
                Some(storage_type) => Ok(storage_type),
                None => Err(NameError::UnknownStorageType),
            }),
    {
        if str_eq(input, "emmc") {
            Ok(FirehoseStorageType::Emmc)
        } else if str_eq(input, "ufs") {
            Ok(FirehoseStorageType::Ufs)
        } else if str_eq(input, "nand") {
            Ok(FirehoseStorageType::Nand)
        } else if str_eq(input, "nvme") {
            Ok(FirehoseStorageType::Nvme)
        } else if str_eq(input, "spinor") {
            Ok(FirehoseStorageType::Spinor)
        } else {
            Err(NameError::UnknownStorageType)
        }
    }
}

/// List of supported reboot modes, supplied to the \<reset\> command.
#[derive(Clone, Copy, Debug, PartialEq, Eq, Structural)]
pub enum FirehoseResetMode {
    ResetToEdl,
    Reset,
    Off,
}

impl FirehoseResetMode {
    /// The name of the reset mode.
    pub open spec fn name(self) -> Seq<char> {
        match self {
            FirehoseResetMode::ResetToEdl => "edl"@,
            FirehoseResetMode::Reset => "system"@,
            FirehoseResetMode::Off => "off"@,
        }
    }

    /// The reset mode of that name, if there is one.
    pub open spec fn named(name: Seq<char>) -> Option<FirehoseResetMode> {
        if name == "edl"@ {
            Some(FirehoseResetMode::ResetToEdl)
        } else if name == "system"@ {
            Some(FirehoseResetMode::Reset)
        } else if name == "off"@ {
            Some(FirehoseResetMode::Off)
        } else {
            None
        }
    }

    /// The name of the reset mode.
    pub fn to_string(&self) -> (name: String)
        ensures
            name@ == self.name(),
    {
        match self {
            FirehoseResetMode::ResetToEdl => "edl".to_owned(),
            FirehoseResetMode::Reset => "system".to_owned(),
            FirehoseResetMode::Off => "off".to_owned(),
        }
    }
}

impl std::str::FromStr for FirehoseResetMode {
    type Err = NameError;

    fn from_str(s: &str) -> (res: Result<FirehoseResetMode, NameError>)
        ensures
            res == (match FirehoseResetMode::named(s@) {
                Some(mode) => Ok(mode),
                None => Err(NameError::InvalidInput),
            }),
    {
        if str_eq(s, "edl") {
            Ok(FirehoseResetMode::ResetToEdl)
        } else if str_eq(s, "system") {
            Ok(FirehoseResetMode::Reset)
        } else if str_eq(s, "off") {
            Ok(FirehoseResetMode::Off)
        } else {
            Err(NameError::InvalidInput)
        }
    }
}

/// What is said of a name that is none: of which kind it should have been, or, for a
/// reset mode, that the input is invalid.
pub proof fn law_error_texts(error: NameError)
    ensures
        error is UnknownBackend ==> error.text() == "Unknown backend"@,
        error is UnknownStorageType ==> error.text() == "Unknown storage type"@,
        error is InvalidInput ==> error.text() == "invalid input parameter"@,
{
}

/// The names of the backends: these two, to the letter, and no others.
pub proof fn law_backend_names(name: Seq<char>)
    ensures
        name == "serial"@ <==> QdlBackend::named(name) == Some(QdlBackend::Serial),
        name == "usb"@ <==> QdlBackend::named(name) == Some(QdlBackend::Usb),
{
    reveal_strlit("serial");
    reveal_strlit("usb");
    assert("serial"@[0] == 's');
    assert("usb"@[0] == 'u');
}

/// The names of the storage types: these five, to the letter, and no others.
pub proof fn law_storage_type_spelling(name: Seq<char>)
    ensures
        name == "emmc"@ <==> FirehoseStorageType::named(name) == Some(FirehoseStorageType::Emmc),
        name == "ufs"@ <==> FirehoseStorageType::named(name) == Some(FirehoseStorageType::Ufs),
        name == "nand"@ <==> FirehoseStorageType::named(name) == Some(FirehoseStorageType::Nand),
        name == "nvme"@ <==> FirehoseStorageType::named(name) == Some(FirehoseStorageType::Nvme),
        name == "spinor"@ <==> FirehoseStorageType::named(name) == Some(
            FirehoseStorageType::Spinor,
        ),
{
    law_storage_type_names(FirehoseStorageType::Emmc, name);
    law_storage_type_names(FirehoseStorageType::Ufs, name);
    law_storage_type_names(FirehoseStorageType::Nand, name);
    law_storage_type_names(FirehoseStorageType::Nvme, name);
    law_storage_type_names(FirehoseStorageType::Spinor, name);
}

/// The names of the reset modes: these three, to the letter, and no others.
pub proof fn law_reset_mode_spelling(name: Seq<char>)
    ensures
        name == "edl"@ <==> FirehoseResetMode::named(name) == Some(FirehoseResetMode::ResetToEdl),
        name == "system"@ <==> FirehoseResetMode::named(name) == Some(FirehoseResetMode::Reset),
        name == "off"@ <==> FirehoseResetMode::named(name) == Some(FirehoseResetMode::Off),
{
    law_reset_mode_names(FirehoseResetMode::ResetToEdl, name);
    law_reset_mode_names(FirehoseResetMode::Reset, name);
    law_reset_mode_names(FirehoseResetMode::Off, name);
}

/// A storage type is read back from its own name, and from no other.
pub proof fn law_storage_type_names(storage_type: FirehoseStorageType, name: Seq<char>)
    ensures
        FirehoseStorageType::named(name) == Some(storage_type) <==> name == storage_type.name(),
{
    reveal_strlit("emmc");
    reveal_strlit("ufs");
    reveal_strlit("nand");
    reveal_strlit("nvme");
    reveal_strlit("spinor");
    assert("emmc"@[0] == 'e');
    assert("ufs"@[0] == 'u');
    assert("nand"@[1] == 'a');
    assert("nvme"@[1] == 'v');
    assert("spinor"@[0] == 's');
}

/// A reset mode is read back from its own name, and from no other.
pub proof fn law_reset_mode_names(mode: FirehoseResetMode, name: Seq<char>)
    ensures
        FirehoseResetMode::named(name) == Some(mode) <==> name == mode.name(),
{
    reveal_strlit("edl");
    reveal_strlit("system");
    reveal_strlit("off");
    assert("edl"@[0] == 'e');
    assert("system"@[0] == 's');
    assert("off"@[0] == 'o');
}

/// How a Firehose session is run. Sent and received are from the host's point of
/// view.
#[derive(Clone, Copy, Debug)]
pub struct FirehoseConfiguration {
    pub send_buffer_size: usize,
    pub recv_buffer_size: usize,
    pub xml_buf_size: usize,
    pub storage_sector_size: usize,
    pub storage_type: FirehoseStorageType,
    pub bypass_storage: bool,
    pub hash_packets: bool,
    pub read_back_verify: bool,
    pub backend: QdlBackend,
    pub skip_firehose_log: bool,
    pub verbose_firehose: bool,
    pub dry_run: bool,
}

impl FirehoseConfiguration {
    /// The configuration to use unless told otherwise, with the backend that the
    /// host system calls for.
    pub fn default(target_is_windows: bool) -> (cfg: FirehoseConfiguration)
        ensures
            cfg.send_buffer_size == 1024 * 1024,
            cfg.recv_buffer_size == 4096,
            cfg.xml_buf_size == 4096,
            cfg.storage_sector_size == 512,
            cfg.storage_type == FirehoseStorageType::Emmc,
            cfg.bypass_storage,
            !cfg.hash_packets,
            !cfg.read_back_verify,
            cfg.backend == (if target_is_windows {
                QdlBackend::Serial
            } else {
                QdlBackend::Usb
            }),
            cfg.skip_firehose_log,
            !cfg.verbose_firehose,
            !cfg.dry_run,
    {
        FirehoseConfiguration {
            send_buffer_size: 1024 * 1024,
            recv_buffer_size: 4096,
            xml_buf_size: 4096,
            storage_sector_size: 512,
            storage_type: FirehoseStorageType::Emmc,
            bypass_storage: true,
            hash_packets: false,
            read_back_verify: false,
            backend: QdlBackend::default(target_is_windows),
            skip_firehose_log: true,
            verbose_firehose: false,
            dry_run: false,
        }
    }
}

/// What a channel keeps of a session.
#[verifier::ext_equal]
pub struct ChanState {
    /// The configuration of the session.
    pub fh_cfg: FirehoseConfiguration,
    /// The digests of all that was recorded, in order.
    pub digests: Seq<Seq<u8>>,
    /// How many packets were sent.
    pub send_count: nat,
    /// The digest table to be sent to the device.
    pub vip_digest_table: Seq<u8>,
    /// How far into the digest table the next chunk begins.
    pub vip_digest_offset: nat,
}

impl ChanState {
    /// Where a chunk of at most `size` bytes ends that begins at the offset.
    pub open spec fn chunk_end(self, size: nat) -> nat {
        if self.vip_digest_offset + size <= self.vip_digest_table.len() {
            self.vip_digest_offset + size
        } else {
            self.vip_digest_table.len()
        }
    }

    /// The next chunk of the digest table, of at most `size` bytes: none once the
    /// table is used up.
    pub open spec fn chunk(self, size: nat) -> Option<Seq<u8>> {
        if self.vip_digest_offset >= self.vip_digest_table.len() {
            None
        } else {
            Some(
                self.vip_digest_table.subrange(
                    self.vip_digest_offset as int,
                    self.chunk_end(size) as int,
                ),
            )
        }
    }

    /// The state after the next chunk was taken.
    pub open spec fn after_chunk(self, size: nat) -> ChanState {
        if self.vip_digest_offset >= self.vip_digest_table.len() {
            self
        } else {
            ChanState { vip_digest_offset: self.chunk_end(size), ..self }
        }
    }

    /// The state after `message` was recorded.
    pub open spec fn after_record(self, message: Seq<u8>) -> ChanState {
        ChanState { digests: self.digests.push(sha256(message)@), ..self }
    }

    /// The state after `call`.
    pub open spec fn after_call(self, call: ChanCall) -> ChanState {
        match call {
            ChanCall::MutFhConfig(fh_cfg) => ChanState { fh_cfg, ..self },
            ChanCall::RecordXmlCommand(message) => self.after_record(message),
            ChanCall::RecordDataCommand(message) => self.after_record(message),
            ChanCall::IncrementSendCount => ChanState { send_count: self.send_count + 1, ..self },
            ChanCall::NextDigestChunk(size) => self.after_chunk(size),
            ChanCall::Stream => self,
        }
    }

    /// The state after one call after another.
    pub open spec fn after_calls(self, calls: Seq<ChanCall>) -> ChanState
        decreases calls.len(),
    {
        if calls.len() == 0 {
            self
        } else {
            self.after_calls(calls.drop_last()).after_call(calls.last())
        }
    }
}

/// A call that may change a channel, with all that its effect depends on.
pub enum ChanCall {
    /// The configuration was given out and left as this.
    MutFhConfig(FirehoseConfiguration),
    /// An XML command was recorded.
    RecordXmlCommand(Seq<u8>),
    /// A data packet was recorded.
    RecordDataCommand(Seq<u8>),
    /// One more packet was counted.
    IncrementSendCount,
    /// A chunk of at most that many bytes was taken.
    NextDigestChunk(nat),
    /// The stream to the device was read or written.
    Stream,
}

impl ChanCall {
    /// The message that the call records, if it records one.
    pub open spec fn recorded(self) -> Option<Seq<u8>> {
        match self {
            ChanCall::RecordXmlCommand(message) => Some(message),
            ChanCall::RecordDataCommand(message) => Some(message),
            _ => None,
        }
    }
}

/// The messages that calls record, in order.
pub open spec fn recorded_messages(calls: Seq<ChanCall>) -> Seq<Seq<u8>> {
    calls.filter(|call: ChanCall| call.recorded() is Some).map_values(
        |call: ChanCall| call.recorded()->0,
    )
}

/// How many of the calls count a packet.
pub open spec fn sends_counted(calls: Seq<ChanCall>) -> nat {
    calls.filter(|call: ChanCall| call is IncrementSendCount).len()
}

/// Recording messages one after another, each as an XML command or as a data
/// packet, adds their digests in order and changes nothing else. Which of the two a
/// message is recorded as makes no difference.
pub proof fn law_recordings(state: ChanState, calls: Seq<ChanCall>, messages: Seq<Seq<u8>>)
    requires
        calls.len() == messages.len(),
        forall|i: int|
            0 <= i < calls.len() ==> (#[trigger] calls[i]).recorded() == Some(messages[i]),
    ensures
        state.after_calls(calls) == (ChanState {
            digests: state.digests + messages.map_values(|message: Seq<u8>| sha256(message)@),
            ..state
        }),
    decreases calls.len(),
{
    let added = messages.map_values(|message: Seq<u8>| sha256(message)@);
    if calls.len() == 0 {
        assert(state.digests + added =~= state.digests);
    } else {
        let before = messages.drop_last();
        law_recordings(state, calls.drop_last(), before);
        assert(calls.last().recorded() == Some(messages.last()));
        let added_before = before.map_values(|message: Seq<u8>| sha256(message)@);
        assert((state.digests + added_before).push(sha256(messages.last())@) =~= state.digests
            + added);
    }
}

/// Over any history of calls, the digests grow by those of the messages that were
/// recorded, in order, and by nothing else.
pub proof fn law_history_digests(state: ChanState, calls: Seq<ChanCall>)
    ensures
        state.after_calls(calls).digests == state.digests + recorded_messages(calls).map_values(
            |message: Seq<u8>| sha256(message)@,
        ),
    decreases calls.len(),
{
    reveal(Seq::filter);
    let added = recorded_messages(calls).map_values(|message: Seq<u8>| sha256(message)@);
    if calls.len() == 0 {
        assert(state.digests + added =~= state.digests);
    } else {
        let earlier = calls.drop_last();
        law_history_digests(state, earlier);
        assert(state.after_calls(calls).digests =~= state.digests + added);
    }
}

/// Over any history of calls, the count of packets grows by the number of calls
/// that count one: nothing else counts, neither recording nor the stream.
pub proof fn law_send_count(state: ChanState, calls: Seq<ChanCall>)
    ensures
        state.after_calls(calls).send_count == state.send_count + sends_counted(calls),
    decreases calls.len(),
{
    reveal(Seq::filter);
    if calls.len() > 0 {
        law_send_count(state, calls.drop_last());
    }
}

/// The bytes of a chunk, where there is one.
pub open spec fn chunk_bytes(chunk: Option<Seq<u8>>) -> Seq<u8> {
    match chunk {
        Some(bytes) => bytes,
        None => Seq::empty(),
    }
}

/// The bytes of `count` chunks of at most `size` bytes, taken one after another.
pub open spec fn drained(state: ChanState, size: nat, count: nat) -> Seq<u8>
    decreases count,
{
    if count == 0 {
        Seq::empty()
    } else {
        chunk_bytes(state.chunk(size)) + drained(state.after_chunk(size), size, (count - 1) as nat)
    }
}

/// What each call does to a channel, and that it does nothing else.
pub proof fn law_calls(
    state: ChanState,
    message: Seq<u8>,
    fh_cfg: FirehoseConfiguration,
)
    ensures
        state.after_call(ChanCall::RecordXmlCommand(message)) == (ChanState {
            digests: state.digests.push(sha256(message)@),
            ..state
        }),
        state.after_call(ChanCall::RecordDataCommand(message)) == (ChanState {
            digests: state.digests.push(sha256(message)@),
            ..state
        }),
        state.after_call(ChanCall::IncrementSendCount) == (ChanState {
            send_count: state.send_count + 1,
            ..state
        }),
        state.after_call(ChanCall::MutFhConfig(fh_cfg)) == (ChanState { fh_cfg, ..state }),
        state.after_call(ChanCall::Stream) == state,
{
}

/// Once the digest table is used up, no chunk comes and nothing changes. Before that
/// a chunk holds as many bytes as were asked for, or all that are left where those
/// are fewer; they are the bytes of the table from the offset on; and the offset
/// moves on by as many, while all else stays.
pub proof fn law_chunk(state: ChanState, size: nat)
    ensures
        ({
            let table = state.vip_digest_table;
            let offset = state.vip_digest_offset;
            let after = state.after_call(ChanCall::NextDigestChunk(size));
            &&& table.len() <= offset ==> state.chunk(size) is None && after == state
            &&& offset < table.len() ==> {
                &&& state.chunk(size) matches Some(bytes)
                &&& bytes.len() == (if size <= table.len() - offset {
                    size as int
                } else {
                    table.len() - offset
                })
                &&& forall|k: int| 0 <= k < bytes.len() ==> bytes[k] == table[offset + k]
                &&& after == (ChanState { vip_digest_offset: offset + bytes.len(), ..state })
            }
        }),
{
}

/// Two chunks taken one after another are the one chunk of their joint size, and
/// leave the channel in the same state.
pub proof fn law_chunks_join(state: ChanState, first: nat, second: nat)
    ensures
        chunk_bytes(state.chunk(first)) + chunk_bytes(state.after_chunk(first).chunk(second))
            == chunk_bytes(state.chunk(first + second)),
        state.after_chunk(first).after_chunk(second) == state.after_chunk(first + second),
{
    assert(chunk_bytes(state.chunk(first)) + chunk_bytes(state.after_chunk(first).chunk(second))
        =~= chunk_bytes(state.chunk(first + second)));
}

/// Chunks of any one size, taken until they cover the rest of the digest table,
/// are together exactly that rest: no byte is left out and none comes twice.
pub proof fn law_chunks_cover_table(state: ChanState, size: nat, count: nat)
    requires
        state.vip_digest_offset <= state.vip_digest_table.len(),
        state.vip_digest_table.len() <= state.vip_digest_offset + size * count,
    ensures
        drained(state, size, count) == state.vip_digest_table.skip(
            state.vip_digest_offset as int,
        ),
    decreases count,
{
    let rest = state.vip_digest_table.skip(state.vip_digest_offset as int);
    if count == 0 {
        assert(size * count == 0) by (nonlinear_arith)
            requires
                count == 0,
        ;
        assert(rest =~= Seq::empty());
    } else {
        let less = (count - 1) as nat;
        assert(size * count == size + size * less) by (nonlinear_arith)
            requires
                count == less + 1,
        ;
        assert(0 <= size * less) by (nonlinear_arith)
            requires
                0 <= size,
                0 <= less,
        ;
        law_chunks_cover_table(state.after_chunk(size), size, less);
        assert(drained(state, size, count) =~= rest);
    }
}

/// A channel to a device, with what a session keeps beside it.
pub trait QdlChan {
    /// What the channel keeps of the session.
    spec fn chan(&self) -> ChanState;

    /// The configuration of the session.
    fn fh_config(&self) -> (cfg: &FirehoseConfiguration)
        ensures
            *cfg == self.chan().fh_cfg,
    ;

    /// The configuration of the session, to be changed.
    fn mut_fh_config(&mut self) -> (cfg: &mut FirehoseConfiguration)
        ensures
            *cfg == old(self).chan().fh_cfg,
            final(self).chan() == old(self).chan().after_call(
                ChanCall::MutFhConfig(*final(cfg)),
            ),
    ;

    /// Records the digest of an XML command.
    fn record_xml_command(&mut self, buf: &[u8])
        requires
            buf@.len() <= SHA256_MAX_MESSAGE_LEN,
        ensures
            final(self).chan() == old(self).chan().after_call(ChanCall::RecordXmlCommand(buf@)),
    ;

    /// Records the digest of a data packet.
    fn record_data_command(&mut self, buf: &[u8])
        requires
            buf@.len() <= SHA256_MAX_MESSAGE_LEN,
        ensures
            final(self).chan() == old(self).chan().after_call(ChanCall::RecordDataCommand(buf@)),
    ;

    /// Counts one more packet sent.
    fn increment_send_count(&mut self)
        requires
            old(self).chan().send_count < u64::MAX,
        ensures
            final(self).chan() == old(self).chan().after_call(ChanCall::IncrementSendCount),
    ;

    /// How many packets were sent.
    fn get_send_count(&self) -> (count: u64)
        ensures
            count == self.chan().send_count,
    ;

    /// Takes the next chunk of the digest table, of at most `chunk_size` bytes.
    fn next_digest_chunk(&mut self, chunk_size: usize) -> (chunk: Option<&[u8]>)
        requires
            old(self).chan().vip_digest_offset < old(self).chan().vip_digest_table.len()
                ==> old(self).chan().vip_digest_offset + chunk_size <= usize::MAX,
        ensures
            match chunk {
                Some(bytes) => old(self).chan().chunk(chunk_size as nat) == Some(bytes@),
                None => old(self).chan().chunk(chunk_size as nat) is None,
            },
            final(self).chan() == old(self).chan().after_call(
                ChanCall::NextDigestChunk(chunk_size as nat),
            ),
    ;
}

/// Marks what a device can be reached through.
pub trait QdlReadWrite: Send + Sync {

}

impl<T> QdlReadWrite for &mut T where T: QdlReadWrite + ?Sized {

}

/// A device, and what the host keeps of the session with it.
pub struct QdlDevice<T> where T: QdlReadWrite + ?Sized {
    pub rw: Box<T>,
    pub fh_cfg: FirehoseConfiguration,
    pub reset_on_drop: bool,
    pub digests: Vec<Vec<u8>>,
    pub vip_digest_table: Vec<u8>,
    pub vip_signed_mbn: Vec<u8>,
    pub send_counter: u64,
    pub vip_digest_offset: usize,
}

impl<T> QdlDevice<T> where T: QdlReadWrite + ?Sized {
    /// Whether `self` and `other` agree in all that is no part of the channel
    /// state.
    pub open spec fn same_beside_chan(&self, other: &QdlDevice<T>) -> bool {
        &&& self.rw == other.rw
        &&& self.reset_on_drop == other.reset_on_drop
        &&& self.vip_signed_mbn == other.vip_signed_mbn
    }

    /// Whether `call` on `self` may leave `after`: the stream reaches nothing but
    /// `rw`, and every other call does to the channel state what it does to any,
    /// and nothing to the rest.
    pub open spec fn may_become(&self, call: ChanCall, after: &QdlDevice<T>) -> bool {
        if call is Stream {
            &&& after.fh_cfg == self.fh_cfg
            &&& after.reset_on_drop == self.reset_on_drop
            &&& after.digests == self.digests
            &&& after.vip_digest_table == self.vip_digest_table
            &&& after.vip_signed_mbn == self.vip_signed_mbn
            &&& after.send_counter == self.send_counter
            &&& after.vip_digest_offset == self.vip_digest_offset
        } else {
            &&& after.chan() == self.chan().after_call(call)
            &&& after.same_beside_chan(self)
        }
    }

    /// The reset that the board needs when the session ends now: back to EDL where
    /// the session asked for it, so that the board is not stuck after an error.
    pub fn reset_mode_on_drop(&self) -> (mode: Option<FirehoseResetMode>)
        ensures
            mode == (if self.reset_on_drop {
                Some(FirehoseResetMode::ResetToEdl)
            } else {
                None
            }),
    {
        if self.reset_on_drop {
            Some(FirehoseResetMode::ResetToEdl)
        } else {
            None
        }
    }
}

impl<T> QdlChan for QdlDevice<T> where T: QdlReadWrite + ?Sized {
    open spec fn chan(&self) -> ChanState {
        ChanState {
            fh_cfg: self.fh_cfg,
            digests: self.digests@.map_values(|d: Vec<u8>| d@),
            send_count: self.send_counter as nat,
            vip_digest_table: self.vip_digest_table@,
            vip_digest_offset: self.vip_digest_offset as nat,
        }
    }

    fn fh_config(&self) -> (cfg: &FirehoseConfiguration)
        ensures
            *cfg == self.fh_cfg,
    {
        &self.fh_cfg
    }

    fn mut_fh_config(&mut self) -> (cfg: &mut FirehoseConfiguration)
        ensures
            final(self).same_beside_chan(old(self)),
            old(self).may_become(ChanCall::MutFhConfig(*final(cfg)), final(self)),
    {
        &mut self.fh_cfg
    }

    fn record_xml_command(&mut self, buf: &[u8])
        ensures
            final(self).same_beside_chan(old(self)),
            old(self).may_become(ChanCall::RecordXmlCommand(buf@), final(self)),
    {
        let hash: Vec<u8> = digest(buf);
        self.digests.push(hash);
        assert(self.chan() =~= old(self).chan().after_record(buf@));
    }

    fn record_data_command(&mut self, buf: &[u8])
        ensures
            final(self).same_beside_chan(old(self)),
            old(self).may_become(ChanCall::RecordDataCommand(buf@), final(self)),
    {
        let hash: Vec<u8> = digest(buf);
        self.digests.push(hash);
        assert(self.chan() =~= old(self).chan().after_record(buf@));
    }

    fn increment_send_count(&mut self)
        ensures
            final(self).same_beside_chan(old(self)),
            old(self).may_become(ChanCall::IncrementSendCount, final(self)),
    {
        self.send_counter = self.send_counter + 1;
    }

    fn get_send_count(&self) -> (count: u64)
        ensures
            count == self.send_counter,
    {
        self.send_counter
    }

    fn next_digest_chunk(&mut self, chunk_size: usize) -> (chunk: Option<&[u8]>)
        ensures
            final(self).same_beside_chan(old(self)),
            old(self).may_become(ChanCall::NextDigestChunk(chunk_size as nat), final(self)),
    {
        let start: usize = self.vip_digest_offset;
        let len: usize = self.vip_digest_table.len();
        if start >= len {
            return None;
        }
        let end: usize = if start + chunk_size < len {
            start + chunk_size
        } else {
            len
        };
        self.vip_digest_offset = end;
        Some(slice_subrange(self.vip_digest_table.as_slice(), start, end))
    }
}

/// The channel state of a device, by the fields of the device.
pub proof fn law_device_chan<T>(device: QdlDevice<T>, i: int) where T: QdlReadWrite + ?Sized
    ensures
        device.chan().fh_cfg == device.fh_cfg,
        device.chan().digests.len() == device.digests@.len(),
        0 <= i < device.digests@.len() ==> device.chan().digests[i] == device.digests@[i]@,
        device.chan().send_count == device.send_counter,
        device.chan().vip_digest_table == device.vip_digest_table@,
        device.chan().vip_digest_offset == device.vip_digest_offset,
{
}

/// What a call leaves of a device, field by field. Recording adds the digest of the
/// message behind those before, counting adds one, taking a chunk moves the offset,
/// giving out the configuration changes that alone, and no call but the stream
/// touches `rw`.
pub proof fn law_device_calls<T>(
    before: QdlDevice<T>,
    call: ChanCall,
    after: QdlDevice<T>,
    i: int,
) where T: QdlReadWrite + ?Sized
    requires
        before.may_become(call, &after),
    ensures
        !(call is Stream) ==> after.rw == before.rw,
        after.reset_on_drop == before.reset_on_drop,
        after.vip_signed_mbn@ == before.vip_signed_mbn@,
        after.vip_digest_table@ == before.vip_digest_table@,
        !(call is MutFhConfig) ==> after.fh_cfg == before.fh_cfg,
        call matches ChanCall::MutFhConfig(cfg) ==> after.fh_cfg == cfg,
        call is IncrementSendCount ==> after.send_counter == before.send_counter + 1,
        !(call is IncrementSendCount) ==> after.send_counter == before.send_counter,
        0 <= i < before.digests@.len() ==> after.digests@[i]@ == before.digests@[i]@,
        call matches ChanCall::RecordXmlCommand(message) ==> {
            &&& after.digests@.len() == before.digests@.len() + 1
            &&& after.digests@.last()@ == sha256(message)@
        },
        call matches ChanCall::RecordDataCommand(message) ==> {
            &&& after.digests@.len() == before.digests@.len() + 1
            &&& after.digests@.last()@ == sha256(message)@
        },
        !(call is RecordXmlCommand) && !(call is RecordDataCommand) ==> after.digests@.len()
            == before.digests@.len(),
        call matches ChanCall::NextDigestChunk(size) ==> after.vip_digest_offset
            == before.vip_digest_offset + (if before.vip_digest_table@.len()
            <= before.vip_digest_offset {
            0
        } else if size <= before.vip_digest_table@.len() - before.vip_digest_offset {
            size as int
        } else {
            before.vip_digest_table@.len() - before.vip_digest_offset
        }),
        !(call is NextDigestChunk) ==> after.vip_digest_offset == before.vip_digest_offset,
{
    law_device_chan(before, i);
    law_device_chan(after, i);
    law_device_chan(after, after.digests@.len() - 1);
}

/// Over any history of calls on a device, its channel state changes as the calls
/// say, the rest stays as it was, and nothing but the stream touches `rw`.
pub proof fn law_device_history<T>(devices: Seq<QdlDevice<T>>, calls: Seq<ChanCall>) where
    T: QdlReadWrite + ?Sized,

    requires
        devices.len() == calls.len() + 1,
        forall|i: int|
            0 <= i < calls.len() ==> devices[i].may_become(#[trigger] calls[i], &devices[i + 1]),
    ensures
        devices.last().chan() == devices[0].chan().after_calls(calls),
        devices.last().reset_on_drop == devices[0].reset_on_drop,
        devices.last().vip_signed_mbn == devices[0].vip_signed_mbn,
        (forall|i: int| 0 <= i < calls.len() ==> !((#[trigger] calls[i]) is Stream))
            ==> devices.last().rw == devices[0].rw,
    decreases calls.len(),
{
    if calls.len() > 0 {
        let n = calls.len() - 1;
        let earlier = calls.drop_last();
        assert forall|i: int| 0 <= i < earlier.len() implies devices.drop_last()[i].may_become(
            #[trigger] earlier[i],
            &devices.drop_last()[i + 1],
        ) by {
            assert(devices[i].may_become(calls[i], &devices[i + 1]));
        }
        law_device_history(devices.drop_last(), earlier);
        assert(devices[n].may_become(calls[n], &devices[n + 1]));
        if forall|i: int| 0 <= i < calls.len() ==> !((#[trigger] calls[i]) is Stream) {
            assert forall|i: int| 0 <= i < earlier.len() implies !((
            #[trigger] earlier[i]) is Stream) by {
                assert(!(calls[i] is Stream));
            }
        }
    }
}

/// `std::io::Error` of the standard library, carried through and never looked
/// into.
#[verifier::external_type_specification]
#[verifier::external_body]
pub struct ExIoError(std::io::Error);

/// A channel that takes everything and gives nothing.
pub struct NullChannel;

impl std::io::Read for NullChannel {
    fn read(&mut self, _buf: &mut [u8]) -> (res: Result<usize, std::io::Error>)
        ensures
            res matches Ok(n) && n == 0,
            final(_buf)@ == old(_buf)@,
    {
        Ok(0)
    }
}

impl std::io::Write for NullChannel {
    fn write(&mut self, buf: &[u8]) -> (res: Result<usize, std::io::Error>)
        ensures
            res matches Ok(n) && n == buf@.len(),
    {
        Ok(buf.len())
    }

    fn flush(&mut self) -> (res: Result<(), std::io::Error>)
        ensures
            res is Ok,
    {
        Ok(())
    }
}

impl std::io::BufRead for NullChannel {
    fn fill_buf(&mut self) -> (res: Result<&[u8], std::io::Error>)
        ensures
            res matches Ok(bytes) && bytes@.len() == 0,
    {
        Ok(&[])
    }

    fn consume(&mut self, _amt: usize) {
    }
}

impl QdlReadWrite for NullChannel {

}

} // verus!
