//! What the operations of the backend promise, each in terms of what it is
//! given and what it leaves.
//!
//! A law here speaks of the operation itself: `call_ensures` names any call of
//! it, with its arguments and its result, and the law says what has become of
//! the fields of the backend.

use crate::audio_backends::pw_backend;
use crate::audio_backends::pw_backend::{
    AudioInfo, Chunk, Direction, PrepareAction, PreparePlan, PwBackend,
};
use crate::audio_backends::ringbuffer;
use crate::audio_backends::ringbuffer::{read_data, write_data, SpaRingbuffer};
use crate::guest;
use crate::virtio_sound::{
    VIRTIO_SND_D_INPUT, VIRTIO_SND_D_OUTPUT, VIRTIO_SND_PCM_FMT_S16, VIRTIO_SND_PCM_FMT_S32,
    VIRTIO_SND_PCM_FMT_S8, VIRTIO_SND_PCM_FMT_U16, VIRTIO_SND_PCM_FMT_U32, VIRTIO_SND_PCM_FMT_U8,
    VIRTIO_SND_PCM_RATE_32000, VIRTIO_SND_PCM_RATE_44100, VIRTIO_SND_PCM_RATE_48000,
    VIRTIO_SND_PCM_RATE_64000, VIRTIO_SND_R_PCM_PREPARE, VIRTIO_SND_R_PCM_RELEASE,
    VIRTIO_SND_R_PCM_SET_PARAMS, VIRTIO_SND_R_PCM_START, VIRTIO_SND_R_PCM_STOP,
};
use crate::{Error, PCMParams, Result};
use vstd::prelude::*;

verus! {

/// How many bytes a stream has been given that the audio server has not got.
pub open spec fn unread(backend: PwBackend, id: u32) -> int {
    backend.stream_spa_ringbuffer@[id as int].writeindex
        - backend.stream_spa_ringbuffer@[id as int].readindex
}

/// Where in a ring of 4 MiB the byte with this number lies.
pub open spec fn place(number: int) -> int {
    number % 0x40_0000
}

/// Is there a stream with this id, and was it connected and not released since?
pub open spec fn is_connected(backend: PwBackend, id: u32) -> bool {
    &&& id < backend.stream_states@.len()
    &&& id < backend.stream_formats@.len()
    &&& backend.stream_formats@[id as int] is Some
}

/// Are all the streams but this one as they were, with the same parameters,
/// state, format and data?
pub open spec fn others_kept(before: PwBackend, after: PwBackend, id: u32) -> bool {
    &&& after.stream_params@.len() == before.stream_params@.len()
    &&& after.stream_states@.len() == before.stream_states@.len()
    &&& after.stream_formats@.len() == before.stream_formats@.len()
    &&& after.stream_spa_ringbuffer@.len() == before.stream_spa_ringbuffer@.len()
    &&& after.stream_buffers@.len() == before.stream_buffers@.len()
    &&& forall|j: int|
        0 <= j < before.stream_params@.len() && j != id ==> #[trigger] after.stream_params@[j]
            == before.stream_params@[j]
    &&& forall|j: int|
        0 <= j < before.stream_states@.len() && j != id ==> #[trigger] after.stream_states@[j]
            == before.stream_states@[j]
    &&& forall|j: int|
        0 <= j < before.stream_formats@.len() && j != id ==> #[trigger] after.stream_formats@[j]
            == before.stream_formats@[j]
    &&& forall|j: int|
        0 <= j < before.stream_spa_ringbuffer@.len() && j != id
            ==> #[trigger] after.stream_spa_ringbuffer@[j] == before.stream_spa_ringbuffer@[j]
    &&& forall|j: int|
        0 <= j < before.stream_buffers@.len() && j != id ==> #[trigger] after.stream_buffers@[j]
            == before.stream_buffers@[j]
}

/// Is the data of every stream as it was?
pub open spec fn data_kept(before: PwBackend, after: PwBackend) -> bool {
    &&& after.stream_spa_ringbuffer@ == before.stream_spa_ringbuffer@
    &&& after.stream_buffers@ == before.stream_buffers@
}

/// A new backend has as many streams as it was asked for. None has parameters,
/// a state or a connection, and all their rings are empty.
pub proof fn law_new_backend_is_blank(nr_streams: usize, backend: PwBackend, i: int)
    requires
        call_ensures(PwBackend::new, (nr_streams,), backend),
        0 <= i < nr_streams,
    ensures
        backend.stream_params@.len() == nr_streams,
        backend.stream_states@.len() == nr_streams,
        backend.stream_formats@.len() == nr_streams,
        backend.stream_spa_ringbuffer@.len() == nr_streams,
        backend.stream_buffers@.len() == nr_streams,
        backend.highwater_mark == 0,
        backend.stream_states@[i] == 0,
        backend.stream_formats@[i] is None,
        backend.stream_spa_ringbuffer@[i].readindex == 0,
        backend.stream_spa_ringbuffer@[i].writeindex == 0,
        backend.stream_buffers@[i]@.len() == 0x40_0000,
        forall|j: int| 0 <= j < 0x40_0000 ==> #[trigger] backend.stream_buffers@[i]@[j] == 0,
        guest::le32(backend.stream_params@[i].features) == 0,
        guest::le32(backend.stream_params@[i].buffer_bytes) == 0,
        guest::le32(backend.stream_params@[i].period_bytes) == 0,
        backend.stream_params@[i].channels == 0,
        backend.stream_params@[i].format == 0,
        backend.stream_params@[i].rate == 0,
        backend.stream_params@[i].direction == 0,
{
}

/// The state that is told of a stream is the one that is kept of it, and a
/// state is told of every stream that there is and of no other.
pub proof fn law_state_is_told(backend: &PwBackend, id: u32, outcome: Result<u32>)
    requires
        call_ensures(PwBackend::get_stream_state, (backend, id), outcome),
    ensures
        id < backend.stream_states@.len() ==> outcome == Ok::<u32, Error>(
            backend.stream_states@[id as int],
        ),
        id >= backend.stream_states@.len() ==> outcome == Err::<u32, Error>(
            Error::StreamWithIdNotFound(id),
        ),
{
}

/// Setting parameters succeeds, and keeps them as they are. Only a stream that
/// had no state gets one by it, and no connection is touched.
pub proof fn law_parameters_are_kept(
    backend: &mut PwBackend,
    id: u32,
    params: PCMParams,
    outcome: Result<()>,
)
    requires
        call_ensures(PwBackend::set_param, (backend, id, params), outcome),
        old(backend).wf(),
        id < old(backend).stream_states@.len(),
    ensures
        outcome is Ok,
        final(backend).stream_params@[id as int] == params,
        old(backend).stream_states@[id as int] == 0
            ==> final(backend).stream_states@[id as int] == VIRTIO_SND_R_PCM_SET_PARAMS,
        old(backend).stream_states@[id as int] != 0
            ==> final(backend).stream_states@[id as int] == old(backend).stream_states@[id as int],
        final(backend).stream_formats@ == old(backend).stream_formats@,
        final(backend).highwater_mark == old(backend).highwater_mark,
        data_kept(*old(backend), *final(backend)),
        others_kept(*old(backend), *final(backend), id),
{
    assert(final(backend).stream_formats@ =~= old(backend).stream_formats@);
}

/// A stream with one or two channels can be prepared, and one with any other
/// number of them cannot: that is refused with nothing changed.
pub proof fn law_prepare_wants_mono_or_stereo(
    backend: &mut PwBackend,
    id: u32,
    plan: Result<PreparePlan>,
)
    requires
        call_ensures(PwBackend::prepare, (backend, id), plan),
    ensures
        plan is Ok <==> 1 <= old(backend).stream_params@[id as int].channels <= 2,
        plan is Err ==> plan == Err::<PreparePlan, Error>(Error::ChannelNotSupported)
            && *final(backend) == *old(backend),
{
}

/// Whatever the other parameters are, the sample format that is offered is the
/// server's name of the driver's sample format.
pub proof fn law_prepare_names_the_sample_format(
    backend: &mut PwBackend,
    id: u32,
    plan: PreparePlan,
)
    requires
        call_ensures(PwBackend::prepare, (backend, id), Ok(plan)),
    ensures
        ({
            let format = old(backend).stream_params@[id as int].format;
            &&& format == VIRTIO_SND_PCM_FMT_S8 <==> plan.info.format is S8
            &&& format == VIRTIO_SND_PCM_FMT_U8 <==> plan.info.format is U8
            &&& format == VIRTIO_SND_PCM_FMT_S16 <==> plan.info.format is S16
            &&& format == VIRTIO_SND_PCM_FMT_U16 <==> plan.info.format is U16
            &&& format == VIRTIO_SND_PCM_FMT_S32 <==> plan.info.format is S32
            &&& format == VIRTIO_SND_PCM_FMT_U32 <==> plan.info.format is U32
        }),
{
}

/// Two streams are offered in the same sample format where the driver set the
/// same one for both. Where they are offered in the same one and the server has
/// a name for it, the driver set the same one.
pub proof fn law_prepare_tells_sample_formats_apart(
    one: &mut PwBackend,
    one_id: u32,
    one_plan: PreparePlan,
    two: &mut PwBackend,
    two_id: u32,
    two_plan: PreparePlan,
)
    requires
        call_ensures(PwBackend::prepare, (one, one_id), Ok(one_plan)),
        call_ensures(PwBackend::prepare, (two, two_id), Ok(two_plan)),
    ensures
        ({
            let one_format = old(one).stream_params@[one_id as int].format;
            let two_format = old(two).stream_params@[two_id as int].format;
            &&& one_format == two_format ==> one_plan.info.format == two_plan.info.format
            &&& one_plan.info.format == two_plan.info.format && !(one_plan.info.format is Unknown)
                ==> one_format == two_format
        }),
{
    law_prepare_names_the_sample_format(one, one_id, one_plan);
    law_prepare_names_the_sample_format(two, two_id, two_plan);
}

/// Whatever the other parameters are, the frame rate that is offered is that of
/// the driver where the backend knows it, and 44100 where it does not.
pub proof fn law_prepare_keeps_the_rate(backend: &mut PwBackend, id: u32, plan: PreparePlan)
    requires
        call_ensures(PwBackend::prepare, (backend, id), Ok(plan)),
    ensures
        ({
            let rate = old(backend).stream_params@[id as int].rate;
            &&& rate == VIRTIO_SND_PCM_RATE_32000 <==> plan.info.rate == 32000
            &&& rate == VIRTIO_SND_PCM_RATE_48000 <==> plan.info.rate == 48000
            &&& rate == VIRTIO_SND_PCM_RATE_64000 <==> plan.info.rate == 64000
            &&& rate == VIRTIO_SND_PCM_RATE_44100 ==> plan.info.rate == 44100
            &&& plan.info.rate == 32000 || plan.info.rate == 44100 || plan.info.rate == 48000
                || plan.info.rate == 64000
        }),
{
}

/// Whatever the other parameters are, as many channels are offered as the driver
/// has, one for each ear or one for both, and no other speaker is used.
pub proof fn law_prepare_places_the_channels(
    backend: &mut PwBackend,
    id: u32,
    plan: PreparePlan,
    i: int,
)
    requires
        call_ensures(PwBackend::prepare, (backend, id), Ok(plan)),
        0 <= i < 64,
    ensures
        plan.info.flags == 0,
        plan.info.channels == old(backend).stream_params@[id as int].channels,
        plan.info.channels == 1 && i == 0 <==> plan.info.position@[i] is Mono,
        plan.info.channels == 2 && i == 0 <==> plan.info.position@[i] is FrontLeft,
        plan.info.channels == 2 && i == 1 <==> plan.info.position@[i] is FrontRight,
        i >= plan.info.channels <==> plan.info.position@[i] is Unknown,
{
    assert(plan.info.is_for(old(backend).stream_params@[id as int]));
}

/// The high-water mark is that of as many whole frames as 46440 microseconds
/// have, with two bytes in a frame for each channel.
pub proof fn law_prepare_sets_the_mark(
    backend: &mut PwBackend,
    id: u32,
    plan: PreparePlan,
    frames: int,
)
    requires
        call_ensures(PwBackend::prepare, (backend, id), Ok(plan)),
        frames * 1000000 <= 46440 * plan.info.rate < (frames + 1) * 1000000,
    ensures
        plan.info.channels == 1 ==> final(backend).highwater_mark == frames * 2,
        plan.info.channels == 2 ==> final(backend).highwater_mark == frames * 4,
{
    law_prepare_keeps_the_rate(backend, id, plan);
    law_prepare_places_the_channels(backend, id, plan, 0);
    let rate = plan.info.rate as int;
    assert(46440 * rate / 1000000 == frames);
    assert(frames <= 2972);
    let channels = plan.info.channels as int;
    if channels == 1 {
        assert(46440 * rate / 1000000 * (1int * 2) == frames * 2) by (nonlinear_arith)
            requires
                46440 * rate / 1000000 == frames,
        ;
    } else {
        assert(46440 * rate / 1000000 * (2int * 2) == frames * 4) by (nonlinear_arith)
            requires
                46440 * rate / 1000000 == frames,
        ;
    }
}

/// The number that a text of decimal digits stands for.
pub open spec fn number(text: Seq<char>) -> int
    decreases text.len(),
{
    if text.len() == 0 {
        0
    } else {
        number(text.drop_last()) * 10 + (text.last() as int - '0' as int)
    }
}

/// Is this a decimal number as it is written, with no zero in front?
pub open spec fn is_numeral(text: Seq<char>) -> bool {
    &&& text.len() > 0
    &&& forall|i: int| 0 <= i < text.len() ==> '0' <= #[trigger] text[i] <= '9'
    &&& text[0] == '0' ==> text.len() == 1
}

/// The latency that is asked for is the whole frames of 30 milliseconds, written
/// in decimal over the frame rate.
pub proof fn law_prepare_asks_for_30_milliseconds(
    backend: &mut PwBackend,
    id: u32,
    plan: PreparePlan,
)
    requires
        call_ensures(PwBackend::prepare, (backend, id), Ok(plan)),
    ensures
        exists|frames: Seq<char>, rate: Seq<char>|
            {
                &&& plan.latency@ == frames + seq![' ', '/', ' '] + rate
                &&& #[trigger] is_numeral(frames) && #[trigger] is_numeral(rate)
                &&& number(rate) == plan.info.rate
                &&& number(frames) * 1000 <= plan.info.rate * 30 < (number(frames) + 1) * 1000
            },
{
    law_prepare_keeps_the_rate(backend, id, plan);
    let rate = plan.info.rate as nat;
    let frames = (rate * 30 / 1000) as nat;
    lemma_numeral(rate);
    lemma_numeral(frames);
    let frames_text = pw_backend::decimal(frames);
    let rate_text = pw_backend::decimal(rate);
    assert(plan.latency@ == frames_text + seq![' ', '/', ' '] + rate_text);
}

proof fn lemma_numeral(n: nat)
    ensures
        is_numeral(pw_backend::decimal(n)),
        number(pw_backend::decimal(n)) == n,
        n > 0 ==> pw_backend::decimal(n)[0] != '0',
    decreases n,
{
    let text = pw_backend::decimal(n);
    if n < 10 {
        assert(text.drop_last() =~= Seq::empty());
        assert(number(text.drop_last()) == 0);
    } else {
        lemma_numeral(n / 10);
        assert(text.drop_last() =~= pw_backend::decimal(n / 10));
    }
}

/// A stream is connected where it has its parameters or was released, in the
/// direction that the driver set and in the format that is offered. Where it is
/// prepared already the offer is renewed, and else the server is left alone; its
/// connection, if it has one, stays as it is.
pub proof fn law_prepare_connects_once(backend: &mut PwBackend, id: u32, plan: PreparePlan)
    requires
        call_ensures(PwBackend::prepare, (backend, id), Ok(plan)),
        old(backend).wf(),
        id < old(backend).stream_states@.len(),
    ensures
        ({
            let before = *old(backend);
            let after = *final(backend);
            let state = before.stream_states@[id as int];
            let direction = before.stream_params@[id as int].direction;
            &&& plan.action is Connect <==> state == VIRTIO_SND_R_PCM_SET_PARAMS || state
                == VIRTIO_SND_R_PCM_RELEASE
            &&& plan.action is UpdateParams <==> state == VIRTIO_SND_R_PCM_PREPARE
            &&& plan.action is Connect && direction == VIRTIO_SND_D_OUTPUT ==> plan.action
                == PrepareAction::Connect(Direction::Output)
            &&& plan.action is Connect && direction == VIRTIO_SND_D_INPUT ==> plan.action
                == PrepareAction::Connect(Direction::Input)
            &&& plan.action is Connect ==> after.stream_states@[id as int]
                == VIRTIO_SND_R_PCM_PREPARE && after.stream_formats@[id as int] == Some(plan.info)
            &&& !(plan.action is Connect) ==> after.stream_states@[id as int] == state
                && after.stream_formats@[id as int] == before.stream_formats@[id as int]
            &&& after.stream_params@ == before.stream_params@
            &&& data_kept(before, after)
            &&& others_kept(before, after, id)
        }),
{
}

/// Whenever a stream is connected, it can be started: that succeeds and leaves
/// it started. Where it is not connected that is refused, with nothing changed.
pub proof fn law_connected_streams_start(backend: &mut PwBackend, id: u32, outcome: Result<()>)
    requires
        call_ensures(PwBackend::start, (backend, id), outcome),
    ensures
        is_connected(*old(backend), id) ==> {
            &&& outcome is Ok
            &&& final(backend).stream_states@ == old(backend).stream_states@.update(
                id as int,
                VIRTIO_SND_R_PCM_START,
            )
            &&& final(backend).stream_formats@ == old(backend).stream_formats@
            &&& final(backend).stream_params@ == old(backend).stream_params@
            &&& final(backend).highwater_mark == old(backend).highwater_mark
            &&& data_kept(*old(backend), *final(backend))
        },
        !is_connected(*old(backend), id) && old(backend).wf() ==> {
            &&& outcome == Err::<(), Error>(Error::StreamWithIdNotFound(id))
            &&& *final(backend) == *old(backend)
        },
{
    if is_connected(*old(backend), id) {
        assert(final(backend).stream_formats@ =~= old(backend).stream_formats@);
    }
}

/// Whenever a stream is connected, it can be stopped: that succeeds and leaves
/// it stopped. Where it is not connected that is refused, with nothing changed.
pub proof fn law_connected_streams_stop(backend: &mut PwBackend, id: u32, outcome: Result<()>)
    requires
        call_ensures(PwBackend::stop, (backend, id), outcome),
    ensures
        is_connected(*old(backend), id) ==> {
            &&& outcome is Ok
            &&& final(backend).stream_states@ == old(backend).stream_states@.update(
                id as int,
                VIRTIO_SND_R_PCM_STOP,
            )
            &&& final(backend).stream_formats@ == old(backend).stream_formats@
            &&& final(backend).stream_params@ == old(backend).stream_params@
            &&& final(backend).highwater_mark == old(backend).highwater_mark
            &&& data_kept(*old(backend), *final(backend))
        },
        !is_connected(*old(backend), id) && old(backend).wf() ==> {
            &&& outcome == Err::<(), Error>(Error::StreamWithIdNotFound(id))
            &&& *final(backend) == *old(backend)
        },
{
    if is_connected(*old(backend), id) {
        assert(final(backend).stream_formats@ =~= old(backend).stream_formats@);
    }
}

/// Whenever a stream is connected, it can be released: that succeeds, and takes
/// the connection away. Where it is not connected that is refused, with nothing
/// changed.
pub proof fn law_connected_streams_are_released(
    backend: &mut PwBackend,
    id: u32,
    outcome: Result<()>,
)
    requires
        call_ensures(PwBackend::release, (backend, id), outcome),
    ensures
        is_connected(*old(backend), id) ==> {
            &&& outcome is Ok
            &&& final(backend).stream_states@ == old(backend).stream_states@.update(
                id as int,
                VIRTIO_SND_R_PCM_RELEASE,
            )
            &&& final(backend).stream_formats@ == old(backend).stream_formats@.update(
                id as int,
                None,
            )
            &&& final(backend).stream_params@ == old(backend).stream_params@
            &&& final(backend).highwater_mark == old(backend).highwater_mark
            &&& data_kept(*old(backend), *final(backend))
        },
        !is_connected(*old(backend), id) && old(backend).wf() ==> {
            &&& outcome == Err::<(), Error>(Error::StreamWithIdNotFound(id))
            &&& *final(backend) == *old(backend)
        },
{
}

/// A stream that is prepared can be started, stopped and started again, and each
/// of these leaves it in the state that it is named after.
pub proof fn law_prepared_streams_pause_and_resume(
    prepared: &mut PwBackend,
    id: u32,
    plan: PreparePlan,
    started: &mut PwBackend,
    start: Result<()>,
    stopped: &mut PwBackend,
    stop: Result<()>,
    resumed: &mut PwBackend,
    resume: Result<()>,
)
    requires
        old(prepared).wf(),
        id < old(prepared).stream_states@.len(),
        old(prepared).stream_states@[id as int] != 0,
        call_ensures(PwBackend::prepare, (prepared, id), Ok(plan)),
        *old(started) == *final(prepared),
        call_ensures(PwBackend::start, (started, id), start),
        *old(stopped) == *final(started),
        call_ensures(PwBackend::stop, (stopped, id), stop),
        *old(resumed) == *final(stopped),
        call_ensures(PwBackend::start, (resumed, id), resume),
    ensures
        start is Ok && final(started).stream_states@[id as int] == VIRTIO_SND_R_PCM_START,
        stop is Ok && final(stopped).stream_states@[id as int] == VIRTIO_SND_R_PCM_STOP,
        resume is Ok && final(resumed).stream_states@[id as int] == VIRTIO_SND_R_PCM_START,
{
    law_prepare_connects_once(prepared, id, plan);
    assert(is_connected(*final(prepared), id));
    law_connected_streams_start(started, id, start);
    law_connected_streams_stop(stopped, id, stop);
    law_connected_streams_start(resumed, id, resume);
}

/// A stream that is released cannot be started, stopped or released, and takes
/// no data, until it is prepared again: then it is connected again and starts.
pub proof fn law_released_streams_are_prepared_again(
    released: &mut PwBackend,
    id: u32,
    again: &mut PwBackend,
    command: Result<()>,
    prepared: &mut PwBackend,
    plan: PreparePlan,
    started: &mut PwBackend,
    start: Result<()>,
)
    requires
        old(released).wf(),
        final(released).wf(),
        call_ensures(PwBackend::release, (released, id), Ok(())),
        *old(again) == *final(released),
        call_ensures(PwBackend::start, (again, id), command) || call_ensures(
            PwBackend::stop,
            (again, id),
            command,
        ) || call_ensures(PwBackend::release, (again, id), command),
        *old(prepared) == *final(released),
        call_ensures(PwBackend::prepare, (prepared, id), Ok(plan)),
        *old(started) == *final(prepared),
        call_ensures(PwBackend::start, (started, id), start),
    ensures
        command == Err::<(), Error>(Error::StreamWithIdNotFound(id)),
        *final(again) == *final(released),
        plan.action is Connect,
        start is Ok && final(started).stream_states@[id as int] == VIRTIO_SND_R_PCM_START,
{
    law_connected_streams_are_released(released, id, Ok(()));
    assert(is_connected(*old(released), id));
    assert(!is_connected(*final(released), id));
    law_prepare_connects_once(prepared, id, plan);
    law_connected_streams_start(started, id, start);
    if call_ensures(PwBackend::start, (again, id), command) {
        law_connected_streams_start(again, id, command);
    } else if call_ensures(PwBackend::stop, (again, id), command) {
        law_connected_streams_stop(again, id, command);
    } else {
        law_connected_streams_are_released(again, id, command);
    }
}

/// Data for a stream that is not connected is refused, and a stream that the
/// server does not run takes none; nothing changes by either.
pub proof fn law_only_running_streams_take_data(
    backend: &mut PwBackend,
    id: u32,
    streaming: bool,
    req: &[u8],
    outcome: Result<u32>,
)
    requires
        call_ensures(PwBackend::write, (backend, id, streaming, req), outcome),
        !is_connected(*old(backend), id) || !streaming,
    ensures
        outcome == (if is_connected(*old(backend), id) {
            Ok::<u32, Error>(0)
        } else {
            Err::<u32, Error>(Error::StreamWithIdNotFound(id))
        }),
        *final(backend) == *old(backend),
{
}

/// A running stream takes all of the data where that and what waits do not
/// exceed the high-water mark, and else fills the ring exactly to the mark. Of a
/// length, the lower 32 bits count.
pub proof fn law_write_fills_to_the_mark(
    backend: &mut PwBackend,
    id: u32,
    req: &[u8],
    outcome: Result<u32>,
)
    requires
        call_ensures(PwBackend::write, (backend, id, true, req), outcome),
        old(backend).wf(),
        is_connected(*old(backend), id),
        unread(*old(backend), id) <= old(backend).highwater_mark,
    ensures
        ({
            let offered = req@.len() as int % 0x1_0000_0000;
            let mark = old(backend).highwater_mark;
            &&& outcome is Ok
            &&& unread(*old(backend), id) + offered <= mark ==> outcome->Ok_0 == offered
            &&& unread(*old(backend), id) + offered > mark ==> unread(*final(backend), id) == mark
            &&& unread(*final(backend), id) == unread(*old(backend), id) + outcome->Ok_0
            &&& final(backend).highwater_mark == mark
        }),
{
    assert(old(backend).stream_spa_ringbuffer@[id as int].wf(0x40_0000));
}

/// The bytes that a running stream takes are the first of the data, in order. The
/// write index counts them, each lies in the ring at the place of its number, and
/// nothing else changes.
pub proof fn law_write_puts_bytes_in_their_places(
    backend: &mut PwBackend,
    id: u32,
    req: &[u8],
    count: u32,
    k: int,
)
    requires
        call_ensures(PwBackend::write, (backend, id, true, req), Ok(count)),
        old(backend).wf(),
        is_connected(*old(backend), id),
        0 <= k < 0x40_0000,
    ensures
        ({
            let before = old(backend).stream_spa_ringbuffer@[id as int];
            let after = final(backend).stream_spa_ringbuffer@[id as int];
            let from = before.writeindex as int;
            &&& after.readindex == before.readindex
            &&& after.writeindex == from + count
            &&& count <= req@.len()
            &&& k < count ==> final(backend).stream_buffers@[id as int]@[place(from + k)] == req@[k]
            &&& k >= count ==> final(backend).stream_buffers@[id as int]@[place(from + k)] == old(
                backend,
            ).stream_buffers@[id as int]@[place(from + k)]
            &&& final(backend).stream_buffers@[id as int]@.len() == 0x40_0000
            &&& final(backend).stream_params@ == old(backend).stream_params@
            &&& final(backend).stream_states@ == old(backend).stream_states@
            &&& final(backend).stream_formats@ == old(backend).stream_formats@
            &&& others_kept(*old(backend), *final(backend), id)
        }),
{
    let from = old(backend).stream_spa_ringbuffer@[id as int].writeindex as int;
    assert(old(backend).stream_buffers@[id as int]@.len() == 0x40_0000);
    let at = ringbuffer::slot(0x40_0000, from % 0x40_0000, k);
    assert(at == place(from + k));
    if k < count {
        assert(final(backend).stream_buffers@[id as int]@[at] == req@.take(count as int)[k]);
    } else {
        assert(final(backend).stream_buffers@[id as int]@[at] == old(
            backend,
        ).stream_buffers@[id as int]@[at]);
    }
}

/// The audio server counts in frames: it is told the bytes of a frame, two for
/// each channel of the connection, and gets as many bytes as the frames that it
/// asks for have, where as many wait and it has room for them.
pub proof fn law_server_gets_the_frames_it_asks_for(
    backend: &mut PwBackend,
    id: u32,
    requested: u64,
    maxsize: u32,
    data: &mut [u8],
    chunk: Chunk,
    info: AudioInfo,
)
    requires
        call_ensures(PwBackend::process, (backend, id, requested, maxsize, data), chunk),
        old(backend).wf(),
        is_connected(*old(backend), id),
        old(backend).stream_formats@[id as int] == Some(info),
    ensures
        chunk.offset == 0,
        chunk.stride == info.channels + info.channels,
        requested * chunk.stride <= maxsize && requested * chunk.stride <= unread(
            *old(backend),
            id,
        ) && unread(*old(backend), id) > 0 ==> chunk.size == requested * chunk.stride,
{
    assert(old(backend).stream_spa_ringbuffer@[id as int].wf(0x40_0000));
    assert(info.channels == 1 || info.channels == 2);
    let stride = info.channels + info.channels;
    assert(requested * (info.channels * 2) == requested * stride) by (nonlinear_arith)
        requires
            stride == info.channels + info.channels,
    ;
}

/// The chunk that the audio server gets is the smallest of what it asks for, what
/// it has room for and what waits; where nothing waits, it is told the smaller of
/// the first two. Of what it asks for, the lower 32 bits count.
pub proof fn law_server_gets_no_more_than_waits(
    backend: &mut PwBackend,
    id: u32,
    requested: u64,
    maxsize: u32,
    data: &mut [u8],
    chunk: Chunk,
    wanted: int,
)
    requires
        call_ensures(PwBackend::process, (backend, id, requested, maxsize, data), chunk),
        old(backend).wf(),
        is_connected(*old(backend), id),
        wanted == (requested * chunk.stride) % 0x1_0000_0000,
    ensures
        chunk.size <= wanted && chunk.size <= maxsize,
        unread(*old(backend), id) > 0 ==> {
            &&& chunk.size <= unread(*old(backend), id)
            &&& chunk.size == wanted || chunk.size == maxsize || chunk.size == unread(
                *old(backend),
                id,
            )
        },
        unread(*old(backend), id) == 0 ==> chunk.size == wanted || chunk.size == maxsize,
{
    assert(old(backend).stream_spa_ringbuffer@[id as int].wf(0x40_0000));
    let info = old(backend).stream_formats@[id as int]->0;
    law_server_gets_the_frames_it_asks_for(backend, id, requested, maxsize, data, chunk, info);
    let stride = chunk.stride as int;
    assert(requested * (info.channels * 2) == requested * stride) by (nonlinear_arith)
        requires
            stride == info.channels + info.channels,
    ;
}

/// The bytes that the audio server gets are the oldest that wait, in order. The
/// read index counts them; the ring keeps its bytes, the rest of the server's
/// buffer stays as it is, and nothing else changes.
pub proof fn law_server_gets_the_oldest_bytes(
    backend: &mut PwBackend,
    id: u32,
    requested: u64,
    maxsize: u32,
    data: &mut [u8],
    chunk: Chunk,
    k: int,
)
    requires
        call_ensures(PwBackend::process, (backend, id, requested, maxsize, data), chunk),
        old(backend).wf(),
        is_connected(*old(backend), id),
        old(data)@.len() == maxsize,
        0 <= k < maxsize,
    ensures
        ({
            let before = old(backend).stream_spa_ringbuffer@[id as int];
            let after = final(backend).stream_spa_ringbuffer@[id as int];
            let from = before.readindex as int;
            let count = after.readindex - from;
            &&& unread(*old(backend), id) > 0 ==> count == chunk.size
            &&& unread(*old(backend), id) == 0 ==> count == 0
            &&& after.writeindex == before.writeindex
            &&& k < count ==> final(data)@[k] == old(backend).stream_buffers@[id as int]@[place(
                from + k,
            )]
            &&& k >= count ==> final(data)@[k] == old(data)@[k]
            &&& final(data)@.len() == old(data)@.len()
            &&& final(backend).stream_buffers@ == old(backend).stream_buffers@
            &&& final(backend).stream_params@ == old(backend).stream_params@
            &&& final(backend).stream_states@ == old(backend).stream_states@
            &&& final(backend).stream_formats@ == old(backend).stream_formats@
            &&& final(backend).highwater_mark == old(backend).highwater_mark
            &&& others_kept(*old(backend), *final(backend), id)
        }),
{
    let before = *old(backend);
    let ring = before.stream_spa_ringbuffer@[id as int];
    assert(ring.wf(0x40_0000));
    assert(before.stream_buffers@[id as int]@.len() == 0x40_0000);
    let count = final(backend).stream_spa_ringbuffer@[id as int].readindex - ring.readindex;
    let rest = final(backend).queue(id);
    let info = before.stream_formats@[id as int]->0;
    let asked = PwBackend::asked(info, requested, maxsize);
    assert(asked >= 0 && asked <= maxsize);
    assert(before.queue(id) == final(data)@.take(count) + rest);
    if k < count {
        assert(before.queue(id)[k] == final(data)@.take(count)[k]);
    } else {
        assert(final(data)@.skip(count)[k - count] == final(data)@[k]);
        assert(old(data)@.skip(count)[k - count] == old(data)@[k]);
    }
}

/// What the audio server gets of a stream whose ring was empty is what the driver
/// wrote just before, byte for byte.
pub proof fn law_server_gets_what_was_written(
    written: &mut PwBackend,
    id: u32,
    req: &[u8],
    count: u32,
    given: &mut PwBackend,
    requested: u64,
    maxsize: u32,
    data: &mut [u8],
    chunk: Chunk,
    k: int,
)
    requires
        old(written).wf(),
        final(written).wf(),
        is_connected(*old(written), id),
        unread(*old(written), id) == 0,
        call_ensures(PwBackend::write, (written, id, true, req), Ok(count)),
        *old(given) == *final(written),
        call_ensures(PwBackend::process, (given, id, requested, maxsize, data), chunk),
        old(data)@.len() == maxsize,
        count > 0,
        0 <= k < chunk.size,
    ensures
        chunk.size <= count,
        final(data)@[k] == req@[k],
{
    law_write_puts_bytes_in_their_places(written, id, req, count, 0);
    assert(unread(*final(written), id) == count);
    let stride = chunk.stride as int;
    let wanted = (requested * stride) % 0x1_0000_0000;
    law_server_gets_no_more_than_waits(given, id, requested, maxsize, data, chunk, wanted);
    assert(final(written).stream_spa_ringbuffer@[id as int].wf(0x40_0000));
    law_write_puts_bytes_in_their_places(written, id, req, count, k);
    law_server_gets_the_oldest_bytes(given, id, requested, maxsize, data, chunk, k);
}

/// Recording is answered with success, whatever the stream.
pub proof fn law_read_succeeds(backend: &PwBackend, id: u32, outcome: Result<()>)
    requires
        call_ensures(PwBackend::read, (backend, id), outcome),
    ensures
        outcome is Ok,
{
}

/// The level that a ring tells is the difference of its indices, counted round
/// the range of 32 bits, and the index is the one that is asked for.
pub proof fn law_ring_tells_its_level(ring: &SpaRingbuffer, read: (i32, u32), write: (i32, u32))
    requires
        call_ensures(SpaRingbuffer::get_read_index, (ring,), read),
        call_ensures(SpaRingbuffer::get_write_index, (ring,), write),
    ensures
        read.1 == ring.readindex,
        write.1 == ring.writeindex,
        read.0 == write.0,
        (ring.writeindex - ring.readindex - read.0) % 0x1_0000_0000 == 0,
        0 <= ring.writeindex - ring.readindex <= i32::MAX ==> read.0 == ring.writeindex
            - ring.readindex,
{
}

/// Moving one index of a ring leaves the other.
pub proof fn law_ring_indices_are_apart(
    read: &mut SpaRingbuffer,
    write: &mut SpaRingbuffer,
    index: u32,
)
    requires
        call_ensures(SpaRingbuffer::read_update, (read, index), ()),
        call_ensures(SpaRingbuffer::write_update, (write, index), ()),
    ensures
        final(read).readindex == index && final(read).writeindex == old(read).writeindex,
        final(write).writeindex == index && final(write).readindex == old(write).readindex,
{
}

/// Bytes that are put into a ring lie there one behind the other, and go on at
/// the front behind the last place; taking as many out from the same place gives
/// them back.
pub proof fn law_ring_gives_back_what_was_put(
    buffer: &mut [u8],
    size: u32,
    offset: u32,
    sent: &[u8],
    len: u32,
    filled: &[u8],
    got: &mut [u8],
    i: int,
)
    requires
        offset < size <= old(buffer)@.len(),
        len <= size,
        len <= sent@.len(),
        call_ensures(write_data, (buffer, size, offset, sent, len), ()),
        filled@ == final(buffer)@,
        call_ensures(read_data, (filled, size, offset, got, len), ()),
        0 <= i < size,
    ensures
        ({
            let at = if offset + i < size {
                offset + i
            } else {
                offset + i - size
            };
            &&& i < len ==> final(buffer)@[at] == sent@[i]
            &&& i >= len ==> final(buffer)@[at] == old(buffer)@[at]
            &&& i < len ==> final(got)@[i] == sent@[i]
            &&& len <= i < old(got)@.len() ==> final(got)@[i] == old(got)@[i]
        }),
        final(buffer)@.len() == old(buffer)@.len(),
        final(got)@.len() == old(got)@.len(),
{
    let n = size as int;
    if offset + i < size {
        vstd::arithmetic::div_mod::lemma_small_mod((offset + i) as nat, size as nat);
    } else {
        vstd::arithmetic::div_mod::lemma_mod_add_multiples_vanish(offset + i - size, n);
        vstd::arithmetic::div_mod::lemma_small_mod((offset + i - size) as nat, size as nat);
    }
    let at = ringbuffer::slot(n, offset as int, i);
    assert(at == if offset + i < size { offset + i } else { offset + i - size });
    if i < len {
        assert(final(buffer)@[at] == sent@[i]);
        assert(final(got)@[i] == filled@[at]);
    } else {
        assert(final(buffer)@[at] == old(buffer)@[at]);
    }
}

/// Every command may be given to every stream that there is; starting, stopping
/// and releasing may be asked with any id. Only a stream that would be connected
/// has to have a direction.
pub proof fn law_commands_may_be_given(backend: &mut PwBackend, id: u32, params: PCMParams)
    requires
        old(backend).wf(),
    ensures
        call_requires(PwBackend::start, (backend, id)),
        call_requires(PwBackend::stop, (backend, id)),
        call_requires(PwBackend::release, (backend, id)),
        id < old(backend).stream_states@.len() ==> call_requires(
            PwBackend::set_param,
            (backend, id, params),
        ),
        id < old(backend).stream_states@.len() && (
        old(backend).stream_params@[id as int].direction == VIRTIO_SND_D_OUTPUT
            || old(backend).stream_params@[id as int].direction == VIRTIO_SND_D_INPUT
            || is_connected(*old(backend), id)) ==> call_requires(
            PwBackend::prepare,
            (backend, id),
        ),
{
}

/// Data may be offered to every stream that there is, as long as no more waits
/// than the mark lets and the bytes can be counted.
pub proof fn law_data_may_be_offered(
    backend: &mut PwBackend,
    id: u32,
    streaming: bool,
    req: &[u8],
)
    requires
        old(backend).wf(),
        id < old(backend).stream_states@.len(),
        unread(*old(backend), id) <= old(backend).highwater_mark,
        old(backend).stream_spa_ringbuffer@[id as int].writeindex + req@.len() <= u32::MAX,
    ensures
        call_requires(PwBackend::write, (backend, id, streaming, req)),
{
    assert(old(backend).stream_spa_ringbuffer@[id as int].wf(0x40_0000));
}

/// The audio server may ask for data of every stream that is connected, for any
/// number of frames but none, as long as their bytes can be counted.
pub proof fn law_data_may_be_asked_for(
    backend: &mut PwBackend,
    id: u32,
    requested: u64,
    maxsize: u32,
    data: &mut [u8],
)
    requires
        old(backend).wf(),
        is_connected(*old(backend), id),
        0 < requested,
        requested * 4 <= u64::MAX,
        old(data)@.len() == maxsize,
    ensures
        call_requires(PwBackend::process, (backend, id, requested, maxsize, data)),
{
    let info = old(backend).stream_formats@[id as int]->0;
    assert(info.channels == 1 || info.channels == 2);
    assert(0 < requested * (info.channels * 2) <= u64::MAX) by (nonlinear_arith)
        requires
            info.channels == 1 || info.channels == 2,
            0 < requested,
            requested * 4 <= u64::MAX,
    ;
}

} // verus!
