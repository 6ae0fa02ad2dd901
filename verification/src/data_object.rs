//! The records snapshots keep of jobs, tasks and applications, as messages of
//! the wire format.
use crate::wire::{
    bytes_at, bytes_field, fields_bytes, frame, framed, lemma_fields_advance,
    lemma_fields_round_trip, lemma_last_field_opt_push, lemma_opt_push_writable,
    lemma_text_field_invalid, next_field, opt_push, push_bytes_field, push_varint_field,
    put_text, put_varint, read_field, text_at, text_of, texts_valid, two64, unframe, unframed,
    utf8_bytes, lemma_utf8_bytes, varint_field, varint_of, writable,
    last_field, wire_fields, WireField, repeated_of, repeated_fields, lemma_repeated_of_concat,
    lemma_repeated_of_opt_push, lemma_repeated_fields,
};
use vstd::prelude::*;

verus! {

/// A job as snapshots keep it; options by wire name.
#[derive(Debug, Default)]
pub struct JobDo {
    pub id: u64,
    pub enable: bool,
    pub app_name: String,
    pub namespace: String,
    pub description: String,
    pub schedule_type: String,
    pub cron_value: String,
    pub delay_second: u32,
    pub interval_second: u32,
    pub run_mode: String,
    pub handle_name: String,
    pub trigger_param: String,
    pub router_strategy: String,
    pub past_due_strategy: String,
    pub blocking_strategy: String,
    pub timeout_second: u32,
    pub try_times: u32,
    pub version_id: u64,
    pub last_modified_millis: u64,
    pub create_time: u64,
}

/// The fields of a `JobDo`, texts as characters.
pub struct JobDoView {
    pub id: u64,
    pub enable: bool,
    pub app_name: Seq<char>,
    pub namespace: Seq<char>,
    pub description: Seq<char>,
    pub schedule_type: Seq<char>,
    pub cron_value: Seq<char>,
    pub delay_second: u32,
    pub interval_second: u32,
    pub run_mode: Seq<char>,
    pub handle_name: Seq<char>,
    pub trigger_param: Seq<char>,
    pub router_strategy: Seq<char>,
    pub past_due_strategy: Seq<char>,
    pub blocking_strategy: Seq<char>,
    pub timeout_second: u32,
    pub try_times: u32,
    pub version_id: u64,
    pub last_modified_millis: u64,
    pub create_time: u64,
}

impl View for JobDo {
    type V = JobDoView;

    open spec fn view(&self) -> JobDoView {
        JobDoView {
            id: self.id,
            enable: self.enable,
            app_name: self.app_name@,
            namespace: self.namespace@,
            description: self.description@,
            schedule_type: self.schedule_type@,
            cron_value: self.cron_value@,
            delay_second: self.delay_second,
            interval_second: self.interval_second,
            run_mode: self.run_mode@,
            handle_name: self.handle_name@,
            trigger_param: self.trigger_param@,
            router_strategy: self.router_strategy@,
            past_due_strategy: self.past_due_strategy@,
            blocking_strategy: self.blocking_strategy@,
            timeout_second: self.timeout_second,
            try_times: self.try_times,
            version_id: self.version_id,
            last_modified_millis: self.last_modified_millis,
            create_time: self.create_time,
        }
    }
}

/// The tags of the text fields of a `JobDo`.
pub open spec fn job_do_text_tags() -> Set<int> {
    set![26int, 34int, 42int, 50int, 58int, 82int, 90int, 98int, 106int, 114int, 122int]
}

/// The `JobDo` read from its fields: for each field the last value with its
/// tag, or the default.
pub open spec fn job_do_of_fields(fs: Seq<WireField>) -> JobDoView {
    JobDoView {
        id: varint_of(fs, 8) as u64,
        enable: varint_of(fs, 16) != 0,
        app_name: text_of(fs, 26),
        namespace: text_of(fs, 34),
        description: text_of(fs, 42),
        schedule_type: text_of(fs, 50),
        cron_value: text_of(fs, 58),
        delay_second: varint_of(fs, 64) as u32,
        interval_second: varint_of(fs, 72) as u32,
        run_mode: text_of(fs, 82),
        handle_name: text_of(fs, 90),
        trigger_param: text_of(fs, 98),
        router_strategy: text_of(fs, 106),
        past_due_strategy: text_of(fs, 114),
        blocking_strategy: text_of(fs, 122),
        timeout_second: varint_of(fs, 128) as u32,
        try_times: varint_of(fs, 136) as u32,
        version_id: varint_of(fs, 144) as u64,
        last_modified_millis: varint_of(fs, 152) as u64,
        create_time: varint_of(fs, 160) as u64,
    }
}

/// The `JobDo` a message's bytes hold; None where a field cannot be read or a
/// text is not valid UTF-8.
pub open spec fn job_do_of(b: Seq<u8>) -> Option<JobDoView> {
    match wire_fields(b) {
        Some(fs) => if texts_valid(fs, job_do_text_tags()) {
            Some(job_do_of_fields(fs))
        } else {
            None
        },
        None => None,
    }
}

/// Fields 1 to 7 of a `JobDo` as written, after `base`.
pub open spec fn job_do_fields_0(m: JobDoView, base: Seq<WireField>) -> Seq<WireField> {
    opt_push(
        opt_push(
        opt_push(
        opt_push(
        opt_push(
        opt_push(
        opt_push(
        base,
        m.id != 0,
        varint_field(8, m.id as int),
    ),
        m.enable,
        varint_field(16, 1),
    ),
        m.app_name.len() > 0,
        bytes_field(26, utf8_bytes(m.app_name)),
    ),
        m.namespace.len() > 0,
        bytes_field(34, utf8_bytes(m.namespace)),
    ),
        m.description.len() > 0,
        bytes_field(42, utf8_bytes(m.description)),
    ),
        m.schedule_type.len() > 0,
        bytes_field(50, utf8_bytes(m.schedule_type)),
    ),
        m.cron_value.len() > 0,
        bytes_field(58, utf8_bytes(m.cron_value)),
    )
}

/// Fields 8 to 14 of a `JobDo` as written, after `base`.
pub open spec fn job_do_fields_1(m: JobDoView, base: Seq<WireField>) -> Seq<WireField> {
    opt_push(
        opt_push(
        opt_push(
        opt_push(
        opt_push(
        opt_push(
        opt_push(
        base,
        m.delay_second != 0,
        varint_field(64, m.delay_second as int),
    ),
        m.interval_second != 0,
        varint_field(72, m.interval_second as int),
    ),
        m.run_mode.len() > 0,
        bytes_field(82, utf8_bytes(m.run_mode)),
    ),
        m.handle_name.len() > 0,
        bytes_field(90, utf8_bytes(m.handle_name)),
    ),
        m.trigger_param.len() > 0,
        bytes_field(98, utf8_bytes(m.trigger_param)),
    ),
        m.router_strategy.len() > 0,
        bytes_field(106, utf8_bytes(m.router_strategy)),
    ),
        m.past_due_strategy.len() > 0,
        bytes_field(114, utf8_bytes(m.past_due_strategy)),
    )
}

/// Fields 15 to 20 of a `JobDo` as written, after `base`.
pub open spec fn job_do_fields_2(m: JobDoView, base: Seq<WireField>) -> Seq<WireField> {
    opt_push(
        opt_push(
        opt_push(
        opt_push(
        opt_push(
        opt_push(
        base,
        m.blocking_strategy.len() > 0,
        bytes_field(122, utf8_bytes(m.blocking_strategy)),
    ),
        m.timeout_second != 0,
        varint_field(128, m.timeout_second as int),
    ),
        m.try_times != 0,
        varint_field(136, m.try_times as int),
    ),
        m.version_id != 0,
        varint_field(144, m.version_id as int),
    ),
        m.last_modified_millis != 0,
        varint_field(152, m.last_modified_millis as int),
    ),
        m.create_time != 0,
        varint_field(160, m.create_time as int),
    )
}

/// The fields a `JobDo` is written as: those that differ from their default,
/// in tag order.
pub open spec fn job_do_fields(m: JobDoView) -> Seq<WireField> {
    job_do_fields_2(m, job_do_fields_1(m, job_do_fields_0(m, Seq::<WireField>::empty())))
}

proof fn lemma_job_do_fields_0_writable(m: JobDoView, base: Seq<WireField>)
    requires
        utf8_bytes(m.app_name).len() < two64(),
        utf8_bytes(m.namespace).len() < two64(),
        utf8_bytes(m.description).len() < two64(),
        utf8_bytes(m.schedule_type).len() < two64(),
        utf8_bytes(m.cron_value).len() < two64(),
        forall|i: int| 0 <= i < base.len() ==> writable(#[trigger] base[i]),
        texts_valid(base, job_do_text_tags()),
    ensures
        forall|i: int| 0 <= i < job_do_fields_0(m, base).len() ==> writable(#[trigger] job_do_fields_0(m, base)[i]),
        texts_valid(job_do_fields_0(m, base), job_do_text_tags()),
{
    lemma_utf8_bytes(m.app_name);
    lemma_utf8_bytes(m.namespace);
    lemma_utf8_bytes(m.description);
    lemma_utf8_bytes(m.schedule_type);
    lemma_utf8_bytes(m.cron_value);
    lemma_opt_push_writable(base, m.id != 0, varint_field(8, m.id as int), job_do_text_tags());
    let fs0 = opt_push(base, m.id != 0, varint_field(8, m.id as int));
    lemma_opt_push_writable(fs0, m.enable, varint_field(16, 1), job_do_text_tags());
    let fs1 = opt_push(fs0, m.enable, varint_field(16, 1));
    lemma_opt_push_writable(fs1, m.app_name.len() > 0, bytes_field(26, utf8_bytes(m.app_name)), job_do_text_tags());
    let fs2 = opt_push(fs1, m.app_name.len() > 0, bytes_field(26, utf8_bytes(m.app_name)));
    lemma_opt_push_writable(fs2, m.namespace.len() > 0, bytes_field(34, utf8_bytes(m.namespace)), job_do_text_tags());
    let fs3 = opt_push(fs2, m.namespace.len() > 0, bytes_field(34, utf8_bytes(m.namespace)));
    lemma_opt_push_writable(fs3, m.description.len() > 0, bytes_field(42, utf8_bytes(m.description)), job_do_text_tags());
    let fs4 = opt_push(fs3, m.description.len() > 0, bytes_field(42, utf8_bytes(m.description)));
    lemma_opt_push_writable(fs4, m.schedule_type.len() > 0, bytes_field(50, utf8_bytes(m.schedule_type)), job_do_text_tags());
    let fs5 = opt_push(fs4, m.schedule_type.len() > 0, bytes_field(50, utf8_bytes(m.schedule_type)));
    lemma_opt_push_writable(fs5, m.cron_value.len() > 0, bytes_field(58, utf8_bytes(m.cron_value)), job_do_text_tags());
    let fs6 = opt_push(fs5, m.cron_value.len() > 0, bytes_field(58, utf8_bytes(m.cron_value)));
    assert(fs6 == job_do_fields_0(m, base));
}

proof fn lemma_job_do_fields_0_read(m: JobDoView, base: Seq<WireField>)
    ensures
        forall|t: int| t != 8 && t != 16 && t != 26 && t != 34 && t != 42 && t != 50 && t != 58 ==> #[trigger] last_field(job_do_fields_0(m, base), t) == last_field(base, t),
        last_field(job_do_fields_0(m, base), 8) == if m.id != 0 {
            Some(varint_field(8, m.id as int))
        } else {
            last_field(base, 8)
        },
        last_field(job_do_fields_0(m, base), 16) == if m.enable {
            Some(varint_field(16, 1))
        } else {
            last_field(base, 16)
        },
        last_field(job_do_fields_0(m, base), 26) == if m.app_name.len() > 0 {
            Some(bytes_field(26, utf8_bytes(m.app_name)))
        } else {
            last_field(base, 26)
        },
        last_field(job_do_fields_0(m, base), 34) == if m.namespace.len() > 0 {
            Some(bytes_field(34, utf8_bytes(m.namespace)))
        } else {
            last_field(base, 34)
        },
        last_field(job_do_fields_0(m, base), 42) == if m.description.len() > 0 {
            Some(bytes_field(42, utf8_bytes(m.description)))
        } else {
            last_field(base, 42)
        },
        last_field(job_do_fields_0(m, base), 50) == if m.schedule_type.len() > 0 {
            Some(bytes_field(50, utf8_bytes(m.schedule_type)))
        } else {
            last_field(base, 50)
        },
        last_field(job_do_fields_0(m, base), 58) == if m.cron_value.len() > 0 {
            Some(bytes_field(58, utf8_bytes(m.cron_value)))
        } else {
            last_field(base, 58)
        },
{
    lemma_last_field_opt_push(base, m.id != 0, varint_field(8, m.id as int));
    let fs0 = opt_push(base, m.id != 0, varint_field(8, m.id as int));
    lemma_last_field_opt_push(fs0, m.enable, varint_field(16, 1));
    let fs1 = opt_push(fs0, m.enable, varint_field(16, 1));
    lemma_last_field_opt_push(fs1, m.app_name.len() > 0, bytes_field(26, utf8_bytes(m.app_name)));
    let fs2 = opt_push(fs1, m.app_name.len() > 0, bytes_field(26, utf8_bytes(m.app_name)));
    lemma_last_field_opt_push(fs2, m.namespace.len() > 0, bytes_field(34, utf8_bytes(m.namespace)));
    let fs3 = opt_push(fs2, m.namespace.len() > 0, bytes_field(34, utf8_bytes(m.namespace)));
    lemma_last_field_opt_push(fs3, m.description.len() > 0, bytes_field(42, utf8_bytes(m.description)));
    let fs4 = opt_push(fs3, m.description.len() > 0, bytes_field(42, utf8_bytes(m.description)));
    lemma_last_field_opt_push(fs4, m.schedule_type.len() > 0, bytes_field(50, utf8_bytes(m.schedule_type)));
    let fs5 = opt_push(fs4, m.schedule_type.len() > 0, bytes_field(50, utf8_bytes(m.schedule_type)));
    lemma_last_field_opt_push(fs5, m.cron_value.len() > 0, bytes_field(58, utf8_bytes(m.cron_value)));
    let fs6 = opt_push(fs5, m.cron_value.len() > 0, bytes_field(58, utf8_bytes(m.cron_value)));
    assert(fs6 == job_do_fields_0(m, base));
}

proof fn lemma_job_do_fields_1_writable(m: JobDoView, base: Seq<WireField>)
    requires
        utf8_bytes(m.run_mode).len() < two64(),
        utf8_bytes(m.handle_name).len() < two64(),
        utf8_bytes(m.trigger_param).len() < two64(),
        utf8_bytes(m.router_strategy).len() < two64(),
        utf8_bytes(m.past_due_strategy).len() < two64(),
        forall|i: int| 0 <= i < base.len() ==> writable(#[trigger] base[i]),
        texts_valid(base, job_do_text_tags()),
    ensures
        forall|i: int| 0 <= i < job_do_fields_1(m, base).len() ==> writable(#[trigger] job_do_fields_1(m, base)[i]),
        texts_valid(job_do_fields_1(m, base), job_do_text_tags()),
{
    lemma_utf8_bytes(m.run_mode);
    lemma_utf8_bytes(m.handle_name);
    lemma_utf8_bytes(m.trigger_param);
    lemma_utf8_bytes(m.router_strategy);
    lemma_utf8_bytes(m.past_due_strategy);
    lemma_opt_push_writable(base, m.delay_second != 0, varint_field(64, m.delay_second as int), job_do_text_tags());
    let fs0 = opt_push(base, m.delay_second != 0, varint_field(64, m.delay_second as int));
    lemma_opt_push_writable(fs0, m.interval_second != 0, varint_field(72, m.interval_second as int), job_do_text_tags());
    let fs1 = opt_push(fs0, m.interval_second != 0, varint_field(72, m.interval_second as int));
    lemma_opt_push_writable(fs1, m.run_mode.len() > 0, bytes_field(82, utf8_bytes(m.run_mode)), job_do_text_tags());
    let fs2 = opt_push(fs1, m.run_mode.len() > 0, bytes_field(82, utf8_bytes(m.run_mode)));
    lemma_opt_push_writable(fs2, m.handle_name.len() > 0, bytes_field(90, utf8_bytes(m.handle_name)), job_do_text_tags());
    let fs3 = opt_push(fs2, m.handle_name.len() > 0, bytes_field(90, utf8_bytes(m.handle_name)));
    lemma_opt_push_writable(fs3, m.trigger_param.len() > 0, bytes_field(98, utf8_bytes(m.trigger_param)), job_do_text_tags());
    let fs4 = opt_push(fs3, m.trigger_param.len() > 0, bytes_field(98, utf8_bytes(m.trigger_param)));
    lemma_opt_push_writable(fs4, m.router_strategy.len() > 0, bytes_field(106, utf8_bytes(m.router_strategy)), job_do_text_tags());
    let fs5 = opt_push(fs4, m.router_strategy.len() > 0, bytes_field(106, utf8_bytes(m.router_strategy)));
    lemma_opt_push_writable(fs5, m.past_due_strategy.len() > 0, bytes_field(114, utf8_bytes(m.past_due_strategy)), job_do_text_tags());
    let fs6 = opt_push(fs5, m.past_due_strategy.len() > 0, bytes_field(114, utf8_bytes(m.past_due_strategy)));
    assert(fs6 == job_do_fields_1(m, base));
}

proof fn lemma_job_do_fields_1_read(m: JobDoView, base: Seq<WireField>)
    ensures
        forall|t: int| t != 64 && t != 72 && t != 82 && t != 90 && t != 98 && t != 106 && t != 114 ==> #[trigger] last_field(job_do_fields_1(m, base), t) == last_field(base, t),
        last_field(job_do_fields_1(m, base), 64) == if m.delay_second != 0 {
            Some(varint_field(64, m.delay_second as int))
        } else {
            last_field(base, 64)
        },
        last_field(job_do_fields_1(m, base), 72) == if m.interval_second != 0 {
            Some(varint_field(72, m.interval_second as int))
        } else {
            last_field(base, 72)
        },
        last_field(job_do_fields_1(m, base), 82) == if m.run_mode.len() > 0 {
            Some(bytes_field(82, utf8_bytes(m.run_mode)))
        } else {
            last_field(base, 82)
        },
        last_field(job_do_fields_1(m, base), 90) == if m.handle_name.len() > 0 {
            Some(bytes_field(90, utf8_bytes(m.handle_name)))
        } else {
            last_field(base, 90)
        },
        last_field(job_do_fields_1(m, base), 98) == if m.trigger_param.len() > 0 {
            Some(bytes_field(98, utf8_bytes(m.trigger_param)))
        } else {
            last_field(base, 98)
        },
        last_field(job_do_fields_1(m, base), 106) == if m.router_strategy.len() > 0 {
            Some(bytes_field(106, utf8_bytes(m.router_strategy)))
        } else {
            last_field(base, 106)
        },
        last_field(job_do_fields_1(m, base), 114) == if m.past_due_strategy.len() > 0 {
            Some(bytes_field(114, utf8_bytes(m.past_due_strategy)))
        } else {
            last_field(base, 114)
        },
{
    lemma_last_field_opt_push(base, m.delay_second != 0, varint_field(64, m.delay_second as int));
    let fs0 = opt_push(base, m.delay_second != 0, varint_field(64, m.delay_second as int));
    lemma_last_field_opt_push(fs0, m.interval_second != 0, varint_field(72, m.interval_second as int));
    let fs1 = opt_push(fs0, m.interval_second != 0, varint_field(72, m.interval_second as int));
    lemma_last_field_opt_push(fs1, m.run_mode.len() > 0, bytes_field(82, utf8_bytes(m.run_mode)));
    let fs2 = opt_push(fs1, m.run_mode.len() > 0, bytes_field(82, utf8_bytes(m.run_mode)));
    lemma_last_field_opt_push(fs2, m.handle_name.len() > 0, bytes_field(90, utf8_bytes(m.handle_name)));
    let fs3 = opt_push(fs2, m.handle_name.len() > 0, bytes_field(90, utf8_bytes(m.handle_name)));
    lemma_last_field_opt_push(fs3, m.trigger_param.len() > 0, bytes_field(98, utf8_bytes(m.trigger_param)));
    let fs4 = opt_push(fs3, m.trigger_param.len() > 0, bytes_field(98, utf8_bytes(m.trigger_param)));
    lemma_last_field_opt_push(fs4, m.router_strategy.len() > 0, bytes_field(106, utf8_bytes(m.router_strategy)));
    let fs5 = opt_push(fs4, m.router_strategy.len() > 0, bytes_field(106, utf8_bytes(m.router_strategy)));
    lemma_last_field_opt_push(fs5, m.past_due_strategy.len() > 0, bytes_field(114, utf8_bytes(m.past_due_strategy)));
    let fs6 = opt_push(fs5, m.past_due_strategy.len() > 0, bytes_field(114, utf8_bytes(m.past_due_strategy)));
    assert(fs6 == job_do_fields_1(m, base));
}

proof fn lemma_job_do_fields_2_writable(m: JobDoView, base: Seq<WireField>)
    requires
        utf8_bytes(m.blocking_strategy).len() < two64(),
        forall|i: int| 0 <= i < base.len() ==> writable(#[trigger] base[i]),
        texts_valid(base, job_do_text_tags()),
    ensures
        forall|i: int| 0 <= i < job_do_fields_2(m, base).len() ==> writable(#[trigger] job_do_fields_2(m, base)[i]),
        texts_valid(job_do_fields_2(m, base), job_do_text_tags()),
{
    lemma_utf8_bytes(m.blocking_strategy);
    lemma_opt_push_writable(base, m.blocking_strategy.len() > 0, bytes_field(122, utf8_bytes(m.blocking_strategy)), job_do_text_tags());
    let fs0 = opt_push(base, m.blocking_strategy.len() > 0, bytes_field(122, utf8_bytes(m.blocking_strategy)));
    lemma_opt_push_writable(fs0, m.timeout_second != 0, varint_field(128, m.timeout_second as int), job_do_text_tags());
    let fs1 = opt_push(fs0, m.timeout_second != 0, varint_field(128, m.timeout_second as int));
    lemma_opt_push_writable(fs1, m.try_times != 0, varint_field(136, m.try_times as int), job_do_text_tags());
    let fs2 = opt_push(fs1, m.try_times != 0, varint_field(136, m.try_times as int));
    lemma_opt_push_writable(fs2, m.version_id != 0, varint_field(144, m.version_id as int), job_do_text_tags());
    let fs3 = opt_push(fs2, m.version_id != 0, varint_field(144, m.version_id as int));
    lemma_opt_push_writable(fs3, m.last_modified_millis != 0, varint_field(152, m.last_modified_millis as int), job_do_text_tags());
    let fs4 = opt_push(fs3, m.last_modified_millis != 0, varint_field(152, m.last_modified_millis as int));
    lemma_opt_push_writable(fs4, m.create_time != 0, varint_field(160, m.create_time as int), job_do_text_tags());
    let fs5 = opt_push(fs4, m.create_time != 0, varint_field(160, m.create_time as int));
    assert(fs5 == job_do_fields_2(m, base));
}

proof fn lemma_job_do_fields_2_read(m: JobDoView, base: Seq<WireField>)
    ensures
        forall|t: int| t != 122 && t != 128 && t != 136 && t != 144 && t != 152 && t != 160 ==> #[trigger] last_field(job_do_fields_2(m, base), t) == last_field(base, t),
        last_field(job_do_fields_2(m, base), 122) == if m.blocking_strategy.len() > 0 {
            Some(bytes_field(122, utf8_bytes(m.blocking_strategy)))
        } else {
            last_field(base, 122)
        },
        last_field(job_do_fields_2(m, base), 128) == if m.timeout_second != 0 {
            Some(varint_field(128, m.timeout_second as int))
        } else {
            last_field(base, 128)
        },
        last_field(job_do_fields_2(m, base), 136) == if m.try_times != 0 {
            Some(varint_field(136, m.try_times as int))
        } else {
            last_field(base, 136)
        },
        last_field(job_do_fields_2(m, base), 144) == if m.version_id != 0 {
            Some(varint_field(144, m.version_id as int))
        } else {
            last_field(base, 144)
        },
        last_field(job_do_fields_2(m, base), 152) == if m.last_modified_millis != 0 {
            Some(varint_field(152, m.last_modified_millis as int))
        } else {
            last_field(base, 152)
        },
        last_field(job_do_fields_2(m, base), 160) == if m.create_time != 0 {
            Some(varint_field(160, m.create_time as int))
        } else {
            last_field(base, 160)
        },
{
    lemma_last_field_opt_push(base, m.blocking_strategy.len() > 0, bytes_field(122, utf8_bytes(m.blocking_strategy)));
    let fs0 = opt_push(base, m.blocking_strategy.len() > 0, bytes_field(122, utf8_bytes(m.blocking_strategy)));
    lemma_last_field_opt_push(fs0, m.timeout_second != 0, varint_field(128, m.timeout_second as int));
    let fs1 = opt_push(fs0, m.timeout_second != 0, varint_field(128, m.timeout_second as int));
    lemma_last_field_opt_push(fs1, m.try_times != 0, varint_field(136, m.try_times as int));
    let fs2 = opt_push(fs1, m.try_times != 0, varint_field(136, m.try_times as int));
    lemma_last_field_opt_push(fs2, m.version_id != 0, varint_field(144, m.version_id as int));
    let fs3 = opt_push(fs2, m.version_id != 0, varint_field(144, m.version_id as int));
    lemma_last_field_opt_push(fs3, m.last_modified_millis != 0, varint_field(152, m.last_modified_millis as int));
    let fs4 = opt_push(fs3, m.last_modified_millis != 0, varint_field(152, m.last_modified_millis as int));
    lemma_last_field_opt_push(fs4, m.create_time != 0, varint_field(160, m.create_time as int));
    let fs5 = opt_push(fs4, m.create_time != 0, varint_field(160, m.create_time as int));
    assert(fs5 == job_do_fields_2(m, base));
}

impl JobDo {
    /// Appends fields 1 to 7 where they differ from their default.
    fn put_fields_0(&self, out: &mut Vec<u8>, Ghost(base): Ghost<Seq<WireField>>)
        requires
            old(out)@ == fields_bytes(base),
        ensures
            final(out)@ == fields_bytes(job_do_fields_0(self@, base)),
    {
        let ghost fs0 = base;
        put_varint(out, Ghost(fs0), self.id != 0, 8, self.id as u64);
        let ghost fs1 = opt_push(fs0, self.id != 0, varint_field(8, self.id as int));
        put_varint(out, Ghost(fs1), self.enable, 16, 1);
        let ghost fs2 = opt_push(fs1, self.enable, varint_field(16, 1));
        put_text(out, Ghost(fs2), 26, &self.app_name);
        let ghost fs3 = opt_push(fs2, self.app_name@.len() > 0, bytes_field(26, utf8_bytes(self.app_name@)));
        put_text(out, Ghost(fs3), 34, &self.namespace);
        let ghost fs4 = opt_push(fs3, self.namespace@.len() > 0, bytes_field(34, utf8_bytes(self.namespace@)));
        put_text(out, Ghost(fs4), 42, &self.description);
        let ghost fs5 = opt_push(fs4, self.description@.len() > 0, bytes_field(42, utf8_bytes(self.description@)));
        put_text(out, Ghost(fs5), 50, &self.schedule_type);
        let ghost fs6 = opt_push(fs5, self.schedule_type@.len() > 0, bytes_field(50, utf8_bytes(self.schedule_type@)));
        put_text(out, Ghost(fs6), 58, &self.cron_value);
        let ghost fs7 = opt_push(fs6, self.cron_value@.len() > 0, bytes_field(58, utf8_bytes(self.cron_value@)));
        proof {
            assert(fs7 == job_do_fields_0(self@, base));
        }
    }

    /// Appends fields 8 to 14 where they differ from their default.
    fn put_fields_1(&self, out: &mut Vec<u8>, Ghost(base): Ghost<Seq<WireField>>)
        requires
            old(out)@ == fields_bytes(base),
        ensures
            final(out)@ == fields_bytes(job_do_fields_1(self@, base)),
    {
        let ghost fs0 = base;
        put_varint(out, Ghost(fs0), self.delay_second != 0, 64, self.delay_second as u64);
        let ghost fs1 = opt_push(fs0, self.delay_second != 0, varint_field(64, self.delay_second as int));
        put_varint(out, Ghost(fs1), self.interval_second != 0, 72, self.interval_second as u64);
        let ghost fs2 = opt_push(fs1, self.interval_second != 0, varint_field(72, self.interval_second as int));
        put_text(out, Ghost(fs2), 82, &self.run_mode);
        let ghost fs3 = opt_push(fs2, self.run_mode@.len() > 0, bytes_field(82, utf8_bytes(self.run_mode@)));
        put_text(out, Ghost(fs3), 90, &self.handle_name);
        let ghost fs4 = opt_push(fs3, self.handle_name@.len() > 0, bytes_field(90, utf8_bytes(self.handle_name@)));
        put_text(out, Ghost(fs4), 98, &self.trigger_param);
        let ghost fs5 = opt_push(fs4, self.trigger_param@.len() > 0, bytes_field(98, utf8_bytes(self.trigger_param@)));
        put_text(out, Ghost(fs5), 106, &self.router_strategy);
        let ghost fs6 = opt_push(fs5, self.router_strategy@.len() > 0, bytes_field(106, utf8_bytes(self.router_strategy@)));
        put_text(out, Ghost(fs6), 114, &self.past_due_strategy);
        let ghost fs7 = opt_push(fs6, self.past_due_strategy@.len() > 0, bytes_field(114, utf8_bytes(self.past_due_strategy@)));
        proof {
            assert(fs7 == job_do_fields_1(self@, base));
        }
    }

    /// Appends fields 15 to 20 where they differ from their default.
    fn put_fields_2(&self, out: &mut Vec<u8>, Ghost(base): Ghost<Seq<WireField>>)
        requires
            old(out)@ == fields_bytes(base),
        ensures
            final(out)@ == fields_bytes(job_do_fields_2(self@, base)),
    {
        let ghost fs0 = base;
        put_text(out, Ghost(fs0), 122, &self.blocking_strategy);
        let ghost fs1 = opt_push(fs0, self.blocking_strategy@.len() > 0, bytes_field(122, utf8_bytes(self.blocking_strategy@)));
        put_varint(out, Ghost(fs1), self.timeout_second != 0, 128, self.timeout_second as u64);
        let ghost fs2 = opt_push(fs1, self.timeout_second != 0, varint_field(128, self.timeout_second as int));
        put_varint(out, Ghost(fs2), self.try_times != 0, 136, self.try_times as u64);
        let ghost fs3 = opt_push(fs2, self.try_times != 0, varint_field(136, self.try_times as int));
        put_varint(out, Ghost(fs3), self.version_id != 0, 144, self.version_id as u64);
        let ghost fs4 = opt_push(fs3, self.version_id != 0, varint_field(144, self.version_id as int));
        put_varint(out, Ghost(fs4), self.last_modified_millis != 0, 152, self.last_modified_millis as u64);
        let ghost fs5 = opt_push(fs4, self.last_modified_millis != 0, varint_field(152, self.last_modified_millis as int));
        put_varint(out, Ghost(fs5), self.create_time != 0, 160, self.create_time as u64);
        let ghost fs6 = opt_push(fs5, self.create_time != 0, varint_field(160, self.create_time as int));
        proof {
            assert(fs6 == job_do_fields_2(self@, base));
        }
    }

    /// The message's bytes: its non-default fields in tag order.
    pub fn to_bytes(&self) -> (r: Vec<u8>)
        ensures
            r@ == fields_bytes(job_do_fields(self@)),
    {
        let mut out: Vec<u8> = Vec::new();
        let ghost b0 = Seq::<WireField>::empty();
        proof {
            reveal(fields_bytes);
            assert(out@ =~= fields_bytes(b0));
        }
        self.put_fields_0(&mut out, Ghost(b0));
        let ghost b1 = job_do_fields_0(self@, b0);
        self.put_fields_1(&mut out, Ghost(b1));
        let ghost b2 = job_do_fields_1(self@, b1);
        self.put_fields_2(&mut out, Ghost(b2));
        let ghost b3 = job_do_fields_2(self@, b2);
        out
    }

    /// Reads a message: for each known field the last value with its tag; other
    /// fields are skipped. None where a field cannot be read or a text is not UTF-8.
    pub fn from_bytes(b: &Vec<u8>) -> (r: Option<JobDo>)
        ensures
            match job_do_of(b@) {
                Some(v) => r matches Some(m) && m@ == v,
                None => r is None,
            },
    {
        let mut m = JobDo {
            id: 0,
            enable: false,
            app_name: String::new(),
            namespace: String::new(),
            description: String::new(),
            schedule_type: String::new(),
            cron_value: String::new(),
            delay_second: 0,
            interval_second: 0,
            run_mode: String::new(),
            handle_name: String::new(),
            trigger_param: String::new(),
            router_strategy: String::new(),
            past_due_strategy: String::new(),
            blocking_strategy: String::new(),
            timeout_second: 0,
            try_times: 0,
            version_id: 0,
            last_modified_millis: 0,
            create_time: 0,
        };
        let ghost mut done: Seq<WireField> = Seq::empty();
        let mut pos: usize = 0;
        proof {
            assert(b@.skip(0) =~= b@);
            if let Some(w) = wire_fields(b@) {
                assert(done + w =~= w);
            }
        }
        while pos < b.len()
            invariant
                pos <= b@.len(),
                wire_fields(b@) == match wire_fields(b@.skip(pos as int)) {
                    Some(rest) => Some(done + rest),
                    None => None::<Seq<WireField>>,
                },
                texts_valid(done, job_do_text_tags()),
                m@ == job_do_of_fields(done),
            decreases b.len() - pos,
        {
            let f = match read_field(b, pos) {
                Some(f) => f,
                None => {
                    return None;
                },
            };
            let ghost s = b@.skip(pos as int);
            let ghost wf = next_field(s).unwrap().0;
            proof {
                assert(s.skip(next_field(s).unwrap().1) =~= b@.skip(f.next as int));
                lemma_fields_advance(wire_fields(b@), done, s, b@.skip(f.next as int));
                lemma_last_field_opt_push(done, true, wf);
                reveal(opt_push);
                assert(done.push(wf).drop_last() == done);
            }
            match f.tag {
                8 => {
                    m.id = f.varint;
                },
                16 => {
                    m.enable = f.varint != 0;
                },
                26 => {
                    match text_at(b, &f) {
                        Some(t) => {
                            m.app_name = t;
                        },
                        None => {
                            proof {
                                lemma_text_field_invalid(
                                    wire_fields(b@),
                                    done,
                                    wf,
                                    wire_fields(b@.skip(f.next as int)),
                                    job_do_text_tags(),
                                );
                            }
                            return None;
                        },
                    }
                },
                34 => {
                    match text_at(b, &f) {
                        Some(t) => {
                            m.namespace = t;
                        },
                        None => {
                            proof {
                                lemma_text_field_invalid(
                                    wire_fields(b@),
                                    done,
                                    wf,
                                    wire_fields(b@.skip(f.next as int)),
                                    job_do_text_tags(),
                                );
                            }
                            return None;
                        },
                    }
                },
                42 => {
                    match text_at(b, &f) {
                        Some(t) => {
                            m.description = t;
                        },
                        None => {
                            proof {
                                lemma_text_field_invalid(
                                    wire_fields(b@),
                                    done,
                                    wf,
                                    wire_fields(b@.skip(f.next as int)),
                                    job_do_text_tags(),
                                );
                            }
                            return None;
                        },
                    }
                },
                50 => {
                    match text_at(b, &f) {
                        Some(t) => {
                            m.schedule_type = t;
                        },
                        None => {
                            proof {
                                lemma_text_field_invalid(
                                    wire_fields(b@),
                                    done,
                                    wf,
                                    wire_fields(b@.skip(f.next as int)),
                                    job_do_text_tags(),
                                );
                            }
                            return None;
                        },
                    }
                },
                58 => {
                    match text_at(b, &f) {
                        Some(t) => {
                            m.cron_value = t;
                        },
                        None => {
                            proof {
                                lemma_text_field_invalid(
                                    wire_fields(b@),
                                    done,
                                    wf,
                                    wire_fields(b@.skip(f.next as int)),
                                    job_do_text_tags(),
                                );
                            }
                            return None;
                        },
                    }
                },
                64 => {
                    m.delay_second = #[verifier::truncate] (f.varint as u32);
                },
                72 => {
                    m.interval_second = #[verifier::truncate] (f.varint as u32);
                },
                82 => {
                    match text_at(b, &f) {
                        Some(t) => {
                            m.run_mode = t;
                        },
                        None => {
                            proof {
                                lemma_text_field_invalid(
                                    wire_fields(b@),
                                    done,
                                    wf,
                                    wire_fields(b@.skip(f.next as int)),
                                    job_do_text_tags(),
                                );
                            }
                            return None;
                        },
                    }
                },
                90 => {
                    match text_at(b, &f) {
                        Some(t) => {
                            m.handle_name = t;
                        },
                        None => {
                            proof {
                                lemma_text_field_invalid(
                                    wire_fields(b@),
                                    done,
                                    wf,
                                    wire_fields(b@.skip(f.next as int)),
                                    job_do_text_tags(),
                                );
                            }
                            return None;
                        },
                    }
                },
                98 => {
                    match text_at(b, &f) {
                        Some(t) => {
                            m.trigger_param = t;
                        },
                        None => {
                            proof {
                                lemma_text_field_invalid(
                                    wire_fields(b@),
                                    done,
                                    wf,
                                    wire_fields(b@.skip(f.next as int)),
                                    job_do_text_tags(),
                                );
                            }
                            return None;
                        },
                    }
                },
                106 => {
                    match text_at(b, &f) {
                        Some(t) => {
                            m.router_strategy = t;
                        },
                        None => {
                            proof {
                                lemma_text_field_invalid(
                                    wire_fields(b@),
                                    done,
                                    wf,
                                    wire_fields(b@.skip(f.next as int)),
                                    job_do_text_tags(),
                                );
                            }
                            return None;
                        },
                    }
                },
                114 => {
                    match text_at(b, &f) {
                        Some(t) => {
                            m.past_due_strategy = t;
                        },
                        None => {
                            proof {
                                lemma_text_field_invalid(
                                    wire_fields(b@),
                                    done,
                                    wf,
                                    wire_fields(b@.skip(f.next as int)),
                                    job_do_text_tags(),
                                );
                            }
                            return None;
                        },
                    }
                },
                122 => {
                    match text_at(b, &f) {
                        Some(t) => {
                            m.blocking_strategy = t;
                        },
                        None => {
                            proof {
                                lemma_text_field_invalid(
                                    wire_fields(b@),
                                    done,
                                    wf,
                                    wire_fields(b@.skip(f.next as int)),
                                    job_do_text_tags(),
                                );
                            }
                            return None;
                        },
                    }
                },
                128 => {
                    m.timeout_second = #[verifier::truncate] (f.varint as u32);
                },
                136 => {
                    m.try_times = #[verifier::truncate] (f.varint as u32);
                },
                144 => {
                    m.version_id = f.varint;
                },
                152 => {
                    m.last_modified_millis = f.varint;
                },
                160 => {
                    m.create_time = f.varint;
                },
                _ => {},
            }
            proof {
                done = done.push(wf);
            }
            pos = f.next;
        }
        proof {
            assert(b@.skip(pos as int) =~= Seq::<u8>::empty());
            assert(done + Seq::<WireField>::empty() =~= done);
        }
        Some(m)
    }

    /// Reads a message framed as a record (its length first).
    pub fn read_message(b: &Vec<u8>) -> (r: Option<JobDo>)
        ensures
            match unframed(b@) {
                Some(msg) => match job_do_of(msg) {
                    Some(v) => r matches Some(m) && m@ == v,
                    None => r is None,
                },
                None => r is None,
            },
    {
        match unframe(b) {
            Some((start, end)) => JobDo::from_bytes(&bytes_at(b, start, end)),
            None => None,
        }
    }

    /// The message framed as a record: its length, then its bytes.
    pub fn write_message(&self) -> (r: Vec<u8>)
        ensures
            r@ == framed(fields_bytes(job_do_fields(self@))),
    {
        frame(&self.to_bytes())
    }
}

/// Reading back what a `JobDo` is written as gives it back.
pub proof fn lemma_job_do_round_trip(m: JobDoView)
    requires
        utf8_bytes(m.app_name).len() < two64(),
        utf8_bytes(m.namespace).len() < two64(),
        utf8_bytes(m.description).len() < two64(),
        utf8_bytes(m.schedule_type).len() < two64(),
        utf8_bytes(m.cron_value).len() < two64(),
        utf8_bytes(m.run_mode).len() < two64(),
        utf8_bytes(m.handle_name).len() < two64(),
        utf8_bytes(m.trigger_param).len() < two64(),
        utf8_bytes(m.router_strategy).len() < two64(),
        utf8_bytes(m.past_due_strategy).len() < two64(),
        utf8_bytes(m.blocking_strategy).len() < two64(),
    ensures
        job_do_of(fields_bytes(job_do_fields(m))) == Some(m),
{
    lemma_utf8_bytes(m.app_name);
    lemma_utf8_bytes(m.namespace);
    lemma_utf8_bytes(m.description);
    lemma_utf8_bytes(m.schedule_type);
    lemma_utf8_bytes(m.cron_value);
    lemma_utf8_bytes(m.run_mode);
    lemma_utf8_bytes(m.handle_name);
    lemma_utf8_bytes(m.trigger_param);
    lemma_utf8_bytes(m.router_strategy);
    lemma_utf8_bytes(m.past_due_strategy);
    lemma_utf8_bytes(m.blocking_strategy);
    let b0 = Seq::<WireField>::empty();
    lemma_job_do_fields_0_writable(m, b0);
    lemma_job_do_fields_0_read(m, b0);
    let b1 = job_do_fields_0(m, b0);
    lemma_job_do_fields_1_writable(m, b1);
    lemma_job_do_fields_1_read(m, b1);
    let b2 = job_do_fields_1(m, b1);
    lemma_job_do_fields_2_writable(m, b2);
    lemma_job_do_fields_2_read(m, b2);
    let b3 = job_do_fields_2(m, b2);
    assert(b3 == job_do_fields(m));
    lemma_fields_round_trip(b3);
    assert(job_do_of_fields(b3).id == m.id);
    assert(job_do_of_fields(b3).enable == m.enable);
    assert(job_do_of_fields(b3).app_name == m.app_name);
    assert(job_do_of_fields(b3).namespace == m.namespace);
    assert(job_do_of_fields(b3).description == m.description);
    assert(job_do_of_fields(b3).schedule_type == m.schedule_type);
    assert(job_do_of_fields(b3).cron_value == m.cron_value);
    assert(job_do_of_fields(b3).delay_second == m.delay_second);
    assert(job_do_of_fields(b3).interval_second == m.interval_second);
    assert(job_do_of_fields(b3).run_mode == m.run_mode);
    assert(job_do_of_fields(b3).handle_name == m.handle_name);
    assert(job_do_of_fields(b3).trigger_param == m.trigger_param);
    assert(job_do_of_fields(b3).router_strategy == m.router_strategy);
    assert(job_do_of_fields(b3).past_due_strategy == m.past_due_strategy);
    assert(job_do_of_fields(b3).blocking_strategy == m.blocking_strategy);
    assert(job_do_of_fields(b3).timeout_second == m.timeout_second);
    assert(job_do_of_fields(b3).try_times == m.try_times);
    assert(job_do_of_fields(b3).version_id == m.version_id);
    assert(job_do_of_fields(b3).last_modified_millis == m.last_modified_millis);
    assert(job_do_of_fields(b3).create_time == m.create_time);
}

/// A namespace as snapshots keep it.
#[derive(Debug, Default)]
pub struct NamespaceDo {
    pub id: String,
    pub name: String,
    pub type_pb: String,
}

/// The fields of a `NamespaceDo`, texts as characters.
pub struct NamespaceDoView {
    pub id: Seq<char>,
    pub name: Seq<char>,
    pub type_pb: Seq<char>,
}

impl View for NamespaceDo {
    type V = NamespaceDoView;

    open spec fn view(&self) -> NamespaceDoView {
        NamespaceDoView {
            id: self.id@,
            name: self.name@,
            type_pb: self.type_pb@,
        }
    }
}

/// The tags of the text fields of a `NamespaceDo`.
pub open spec fn namespace_do_text_tags() -> Set<int> {
    set![10int, 18int, 26int]
}

/// The `NamespaceDo` read from its fields: for each field the last value with its
/// tag, or the default.
pub open spec fn namespace_do_of_fields(fs: Seq<WireField>) -> NamespaceDoView {
    NamespaceDoView {
        id: text_of(fs, 10),
        name: text_of(fs, 18),
        type_pb: text_of(fs, 26),
    }
}

/// The `NamespaceDo` a message's bytes hold; None where a field cannot be read or a
/// text is not valid UTF-8.
pub open spec fn namespace_do_of(b: Seq<u8>) -> Option<NamespaceDoView> {
    match wire_fields(b) {
        Some(fs) => if texts_valid(fs, namespace_do_text_tags()) {
            Some(namespace_do_of_fields(fs))
        } else {
            None
        },
        None => None,
    }
}

/// Fields 1 to 3 of a `NamespaceDo` as written, after `base`.
pub open spec fn namespace_do_fields_0(m: NamespaceDoView, base: Seq<WireField>) -> Seq<WireField> {
    opt_push(
        opt_push(
        opt_push(
        base,
        m.id.len() > 0,
        bytes_field(10, utf8_bytes(m.id)),
    ),
        m.name.len() > 0,
        bytes_field(18, utf8_bytes(m.name)),
    ),
        m.type_pb.len() > 0,
        bytes_field(26, utf8_bytes(m.type_pb)),
    )
}

/// The fields a `NamespaceDo` is written as: those that differ from their default,
/// in tag order.
pub open spec fn namespace_do_fields(m: NamespaceDoView) -> Seq<WireField> {
    namespace_do_fields_0(m, Seq::<WireField>::empty())
}

proof fn lemma_namespace_do_fields_0_writable(m: NamespaceDoView, base: Seq<WireField>)
    requires
        utf8_bytes(m.id).len() < two64(),
        utf8_bytes(m.name).len() < two64(),
        utf8_bytes(m.type_pb).len() < two64(),
        forall|i: int| 0 <= i < base.len() ==> writable(#[trigger] base[i]),
        texts_valid(base, namespace_do_text_tags()),
    ensures
        forall|i: int| 0 <= i < namespace_do_fields_0(m, base).len() ==> writable(#[trigger] namespace_do_fields_0(m, base)[i]),
        texts_valid(namespace_do_fields_0(m, base), namespace_do_text_tags()),
{
    lemma_utf8_bytes(m.id);
    lemma_utf8_bytes(m.name);
    lemma_utf8_bytes(m.type_pb);
    lemma_opt_push_writable(base, m.id.len() > 0, bytes_field(10, utf8_bytes(m.id)), namespace_do_text_tags());
    let fs0 = opt_push(base, m.id.len() > 0, bytes_field(10, utf8_bytes(m.id)));
    lemma_opt_push_writable(fs0, m.name.len() > 0, bytes_field(18, utf8_bytes(m.name)), namespace_do_text_tags());
    let fs1 = opt_push(fs0, m.name.len() > 0, bytes_field(18, utf8_bytes(m.name)));
    lemma_opt_push_writable(fs1, m.type_pb.len() > 0, bytes_field(26, utf8_bytes(m.type_pb)), namespace_do_text_tags());
    let fs2 = opt_push(fs1, m.type_pb.len() > 0, bytes_field(26, utf8_bytes(m.type_pb)));
    assert(fs2 == namespace_do_fields_0(m, base));
}

proof fn lemma_namespace_do_fields_0_read(m: NamespaceDoView, base: Seq<WireField>)
    ensures
        forall|t: int| t != 10 && t != 18 && t != 26 ==> #[trigger] last_field(namespace_do_fields_0(m, base), t) == last_field(base, t),
        last_field(namespace_do_fields_0(m, base), 10) == if m.id.len() > 0 {
            Some(bytes_field(10, utf8_bytes(m.id)))
        } else {
            last_field(base, 10)
        },
        last_field(namespace_do_fields_0(m, base), 18) == if m.name.len() > 0 {
            Some(bytes_field(18, utf8_bytes(m.name)))
        } else {
            last_field(base, 18)
        },
        last_field(namespace_do_fields_0(m, base), 26) == if m.type_pb.len() > 0 {
            Some(bytes_field(26, utf8_bytes(m.type_pb)))
        } else {
            last_field(base, 26)
        },
{
    lemma_last_field_opt_push(base, m.id.len() > 0, bytes_field(10, utf8_bytes(m.id)));
    let fs0 = opt_push(base, m.id.len() > 0, bytes_field(10, utf8_bytes(m.id)));
    lemma_last_field_opt_push(fs0, m.name.len() > 0, bytes_field(18, utf8_bytes(m.name)));
    let fs1 = opt_push(fs0, m.name.len() > 0, bytes_field(18, utf8_bytes(m.name)));
    lemma_last_field_opt_push(fs1, m.type_pb.len() > 0, bytes_field(26, utf8_bytes(m.type_pb)));
    let fs2 = opt_push(fs1, m.type_pb.len() > 0, bytes_field(26, utf8_bytes(m.type_pb)));
    assert(fs2 == namespace_do_fields_0(m, base));
}

impl NamespaceDo {
    /// Appends fields 1 to 3 where they differ from their default.
    fn put_fields_0(&self, out: &mut Vec<u8>, Ghost(base): Ghost<Seq<WireField>>)
        requires
            old(out)@ == fields_bytes(base),
        ensures
            final(out)@ == fields_bytes(namespace_do_fields_0(self@, base)),
    {
        let ghost fs0 = base;
        put_text(out, Ghost(fs0), 10, &self.id);
        let ghost fs1 = opt_push(fs0, self.id@.len() > 0, bytes_field(10, utf8_bytes(self.id@)));
        put_text(out, Ghost(fs1), 18, &self.name);
        let ghost fs2 = opt_push(fs1, self.name@.len() > 0, bytes_field(18, utf8_bytes(self.name@)));
        put_text(out, Ghost(fs2), 26, &self.type_pb);
        let ghost fs3 = opt_push(fs2, self.type_pb@.len() > 0, bytes_field(26, utf8_bytes(self.type_pb@)));
        proof {
            assert(fs3 == namespace_do_fields_0(self@, base));
        }
    }

    /// The message's bytes: its non-default fields in tag order.
    pub fn to_bytes(&self) -> (r: Vec<u8>)
        ensures
            r@ == fields_bytes(namespace_do_fields(self@)),
    {
        let mut out: Vec<u8> = Vec::new();
        let ghost b0 = Seq::<WireField>::empty();
        proof {
            reveal(fields_bytes);
            assert(out@ =~= fields_bytes(b0));
        }
        self.put_fields_0(&mut out, Ghost(b0));
        let ghost b1 = namespace_do_fields_0(self@, b0);
        out
    }

    /// Reads a message: for each known field the last value with its tag; other
    /// fields are skipped. None where a field cannot be read or a text is not UTF-8.
    pub fn from_bytes(b: &Vec<u8>) -> (r: Option<NamespaceDo>)
        ensures
            match namespace_do_of(b@) {
                Some(v) => r matches Some(m) && m@ == v,
                None => r is None,
            },
    {
        let mut m = NamespaceDo {
            id: String::new(),
            name: String::new(),
            type_pb: String::new(),
        };
        let ghost mut done: Seq<WireField> = Seq::empty();
        let mut pos: usize = 0;
        proof {
            assert(b@.skip(0) =~= b@);
            if let Some(w) = wire_fields(b@) {
                assert(done + w =~= w);
            }
        }
        while pos < b.len()
            invariant
                pos <= b@.len(),
                wire_fields(b@) == match wire_fields(b@.skip(pos as int)) {
                    Some(rest) => Some(done + rest),
                    None => None::<Seq<WireField>>,
                },
                texts_valid(done, namespace_do_text_tags()),
                m@ == namespace_do_of_fields(done),
            decreases b.len() - pos,
        {
            let f = match read_field(b, pos) {
                Some(f) => f,
                None => {
                    return None;
                },
            };
            let ghost s = b@.skip(pos as int);
            let ghost wf = next_field(s).unwrap().0;
            proof {
                assert(s.skip(next_field(s).unwrap().1) =~= b@.skip(f.next as int));
                lemma_fields_advance(wire_fields(b@), done, s, b@.skip(f.next as int));
                lemma_last_field_opt_push(done, true, wf);
                reveal(opt_push);
                assert(done.push(wf).drop_last() == done);
            }
            match f.tag {
                10 => {
                    match text_at(b, &f) {
                        Some(t) => {
                            m.id = t;
                        },
                        None => {
                            proof {
                                lemma_text_field_invalid(
                                    wire_fields(b@),
                                    done,
                                    wf,
                                    wire_fields(b@.skip(f.next as int)),
                                    namespace_do_text_tags(),
                                );
                            }
                            return None;
                        },
                    }
                },
                18 => {
                    match text_at(b, &f) {
                        Some(t) => {
                            m.name = t;
                        },
                        None => {
                            proof {
                                lemma_text_field_invalid(
                                    wire_fields(b@),
                                    done,
                                    wf,
                                    wire_fields(b@.skip(f.next as int)),
                                    namespace_do_text_tags(),
                                );
                            }
                            return None;
                        },
                    }
                },
                26 => {
                    match text_at(b, &f) {
                        Some(t) => {
                            m.type_pb = t;
                        },
                        None => {
                            proof {
                                lemma_text_field_invalid(
                                    wire_fields(b@),
                                    done,
                                    wf,
                                    wire_fields(b@.skip(f.next as int)),
                                    namespace_do_text_tags(),
                                );
                            }
                            return None;
                        },
                    }
                },
                _ => {},
            }
            proof {
                done = done.push(wf);
            }
            pos = f.next;
        }
        proof {
            assert(b@.skip(pos as int) =~= Seq::<u8>::empty());
            assert(done + Seq::<WireField>::empty() =~= done);
        }
        Some(m)
    }

    /// Reads a message framed as a record (its length first).
    pub fn read_message(b: &Vec<u8>) -> (r: Option<NamespaceDo>)
        ensures
            match unframed(b@) {
                Some(msg) => match namespace_do_of(msg) {
                    Some(v) => r matches Some(m) && m@ == v,
                    None => r is None,
                },
                None => r is None,
            },
    {
        match unframe(b) {
            Some((start, end)) => NamespaceDo::from_bytes(&bytes_at(b, start, end)),
            None => None,
        }
    }

    /// The message framed as a record: its length, then its bytes.
    pub fn write_message(&self) -> (r: Vec<u8>)
        ensures
            r@ == framed(fields_bytes(namespace_do_fields(self@))),
    {
        frame(&self.to_bytes())
    }
}

/// Reading back what a `NamespaceDo` is written as gives it back.
pub proof fn lemma_namespace_do_round_trip(m: NamespaceDoView)
    requires
        utf8_bytes(m.id).len() < two64(),
        utf8_bytes(m.name).len() < two64(),
        utf8_bytes(m.type_pb).len() < two64(),
    ensures
        namespace_do_of(fields_bytes(namespace_do_fields(m))) == Some(m),
{
    lemma_utf8_bytes(m.id);
    lemma_utf8_bytes(m.name);
    lemma_utf8_bytes(m.type_pb);
    let b0 = Seq::<WireField>::empty();
    lemma_namespace_do_fields_0_writable(m, b0);
    lemma_namespace_do_fields_0_read(m, b0);
    let b1 = namespace_do_fields_0(m, b0);
    assert(b1 == namespace_do_fields(m));
    lemma_fields_round_trip(b1);
    assert(namespace_do_of_fields(b1).id == m.id);
    assert(namespace_do_of_fields(b1).name == m.name);
    assert(namespace_do_of_fields(b1).type_pb == m.type_pb);
}

/// An executor instance as snapshots keep it.
#[derive(Debug, Default)]
pub struct AppInstanceDo {
    pub addr: String,
    pub last_modified_time: u32,
    pub token: String,
}

/// The fields of an `AppInstanceDo`, texts as characters.
pub struct AppInstanceDoView {
    pub addr: Seq<char>,
    pub last_modified_time: u32,
    pub token: Seq<char>,
}

impl View for AppInstanceDo {
    type V = AppInstanceDoView;

    open spec fn view(&self) -> AppInstanceDoView {
        AppInstanceDoView {
            addr: self.addr@,
            last_modified_time: self.last_modified_time,
            token: self.token@,
        }
    }
}

/// The tags of the text fields of an `AppInstanceDo`.
pub open spec fn app_instance_do_text_tags() -> Set<int> {
    set![10int, 26int]
}

/// The `AppInstanceDo` read from its fields: for each field the last value with its
/// tag, or the default.
pub open spec fn app_instance_do_of_fields(fs: Seq<WireField>) -> AppInstanceDoView {
    AppInstanceDoView {
        addr: text_of(fs, 10),
        last_modified_time: varint_of(fs, 16) as u32,
        token: text_of(fs, 26),
    }
}

/// The `AppInstanceDo` a message's bytes hold; None where a field cannot be read or a
/// text is not valid UTF-8.
pub open spec fn app_instance_do_of(b: Seq<u8>) -> Option<AppInstanceDoView> {
    match wire_fields(b) {
        Some(fs) => if texts_valid(fs, app_instance_do_text_tags()) {
            Some(app_instance_do_of_fields(fs))
        } else {
            None
        },
        None => None,
    }
}

/// Fields 1 to 3 of an `AppInstanceDo` as written, after `base`.
pub open spec fn app_instance_do_fields_0(m: AppInstanceDoView, base: Seq<WireField>) -> Seq<WireField> {
    opt_push(
        opt_push(
        opt_push(
        base,
        m.addr.len() > 0,
        bytes_field(10, utf8_bytes(m.addr)),
    ),
        m.last_modified_time != 0,
        varint_field(16, m.last_modified_time as int),
    ),
        m.token.len() > 0,
        bytes_field(26, utf8_bytes(m.token)),
    )
}

/// The fields an `AppInstanceDo` is written as: those that differ from their default,
/// in tag order.
pub open spec fn app_instance_do_fields(m: AppInstanceDoView) -> Seq<WireField> {
    app_instance_do_fields_0(m, Seq::<WireField>::empty())
}

proof fn lemma_app_instance_do_fields_0_writable(m: AppInstanceDoView, base: Seq<WireField>)
    requires
        utf8_bytes(m.addr).len() < two64(),
        utf8_bytes(m.token).len() < two64(),
        forall|i: int| 0 <= i < base.len() ==> writable(#[trigger] base[i]),
        texts_valid(base, app_instance_do_text_tags()),
    ensures
        forall|i: int| 0 <= i < app_instance_do_fields_0(m, base).len() ==> writable(#[trigger] app_instance_do_fields_0(m, base)[i]),
        texts_valid(app_instance_do_fields_0(m, base), app_instance_do_text_tags()),
{
    lemma_utf8_bytes(m.addr);
    lemma_utf8_bytes(m.token);
    lemma_opt_push_writable(base, m.addr.len() > 0, bytes_field(10, utf8_bytes(m.addr)), app_instance_do_text_tags());
    let fs0 = opt_push(base, m.addr.len() > 0, bytes_field(10, utf8_bytes(m.addr)));
    lemma_opt_push_writable(fs0, m.last_modified_time != 0, varint_field(16, m.last_modified_time as int), app_instance_do_text_tags());
    let fs1 = opt_push(fs0, m.last_modified_time != 0, varint_field(16, m.last_modified_time as int));
    lemma_opt_push_writable(fs1, m.token.len() > 0, bytes_field(26, utf8_bytes(m.token)), app_instance_do_text_tags());
    let fs2 = opt_push(fs1, m.token.len() > 0, bytes_field(26, utf8_bytes(m.token)));
    assert(fs2 == app_instance_do_fields_0(m, base));
}

proof fn lemma_app_instance_do_fields_0_read(m: AppInstanceDoView, base: Seq<WireField>)
    ensures
        forall|t: int| t != 10 && t != 16 && t != 26 ==> #[trigger] last_field(app_instance_do_fields_0(m, base), t) == last_field(base, t),
        last_field(app_instance_do_fields_0(m, base), 10) == if m.addr.len() > 0 {
            Some(bytes_field(10, utf8_bytes(m.addr)))
        } else {
            last_field(base, 10)
        },
        last_field(app_instance_do_fields_0(m, base), 16) == if m.last_modified_time != 0 {
            Some(varint_field(16, m.last_modified_time as int))
        } else {
            last_field(base, 16)
        },
        last_field(app_instance_do_fields_0(m, base), 26) == if m.token.len() > 0 {
            Some(bytes_field(26, utf8_bytes(m.token)))
        } else {
            last_field(base, 26)
        },
{
    lemma_last_field_opt_push(base, m.addr.len() > 0, bytes_field(10, utf8_bytes(m.addr)));
    let fs0 = opt_push(base, m.addr.len() > 0, bytes_field(10, utf8_bytes(m.addr)));
    lemma_last_field_opt_push(fs0, m.last_modified_time != 0, varint_field(16, m.last_modified_time as int));
    let fs1 = opt_push(fs0, m.last_modified_time != 0, varint_field(16, m.last_modified_time as int));
    lemma_last_field_opt_push(fs1, m.token.len() > 0, bytes_field(26, utf8_bytes(m.token)));
    let fs2 = opt_push(fs1, m.token.len() > 0, bytes_field(26, utf8_bytes(m.token)));
    assert(fs2 == app_instance_do_fields_0(m, base));
}

impl AppInstanceDo {
    /// Appends fields 1 to 3 where they differ from their default.
    fn put_fields_0(&self, out: &mut Vec<u8>, Ghost(base): Ghost<Seq<WireField>>)
        requires
            old(out)@ == fields_bytes(base),
        ensures
            final(out)@ == fields_bytes(app_instance_do_fields_0(self@, base)),
    {
        let ghost fs0 = base;
        put_text(out, Ghost(fs0), 10, &self.addr);
        let ghost fs1 = opt_push(fs0, self.addr@.len() > 0, bytes_field(10, utf8_bytes(self.addr@)));
        put_varint(out, Ghost(fs1), self.last_modified_time != 0, 16, self.last_modified_time as u64);
        let ghost fs2 = opt_push(fs1, self.last_modified_time != 0, varint_field(16, self.last_modified_time as int));
        put_text(out, Ghost(fs2), 26, &self.token);
        let ghost fs3 = opt_push(fs2, self.token@.len() > 0, bytes_field(26, utf8_bytes(self.token@)));
        proof {
            assert(fs3 == app_instance_do_fields_0(self@, base));
        }
    }

    /// The message's bytes: its non-default fields in tag order.
    pub fn to_bytes(&self) -> (r: Vec<u8>)
        ensures
            r@ == fields_bytes(app_instance_do_fields(self@)),
    {
        let mut out: Vec<u8> = Vec::new();
        let ghost b0 = Seq::<WireField>::empty();
        proof {
            reveal(fields_bytes);
            assert(out@ =~= fields_bytes(b0));
        }
        self.put_fields_0(&mut out, Ghost(b0));
        let ghost b1 = app_instance_do_fields_0(self@, b0);
        out
    }

    /// Reads a message: for each known field the last value with its tag; other
    /// fields are skipped. None where a field cannot be read or a text is not UTF-8.
    pub fn from_bytes(b: &Vec<u8>) -> (r: Option<AppInstanceDo>)
        ensures
            match app_instance_do_of(b@) {
                Some(v) => r matches Some(m) && m@ == v,
                None => r is None,
            },
    {
        let mut m = AppInstanceDo {
            addr: String::new(),
            last_modified_time: 0,
            token: String::new(),
        };
        let ghost mut done: Seq<WireField> = Seq::empty();
        let mut pos: usize = 0;
        proof {
            assert(b@.skip(0) =~= b@);
            if let Some(w) = wire_fields(b@) {
                assert(done + w =~= w);
            }
        }
        while pos < b.len()
            invariant
                pos <= b@.len(),
                wire_fields(b@) == match wire_fields(b@.skip(pos as int)) {
                    Some(rest) => Some(done + rest),
                    None => None::<Seq<WireField>>,
                },
                texts_valid(done, app_instance_do_text_tags()),
                m@ == app_instance_do_of_fields(done),
            decreases b.len() - pos,
        {
            let f = match read_field(b, pos) {
                Some(f) => f,
                None => {
                    return None;
                },
            };
            let ghost s = b@.skip(pos as int);
            let ghost wf = next_field(s).unwrap().0;
            proof {
                assert(s.skip(next_field(s).unwrap().1) =~= b@.skip(f.next as int));
                lemma_fields_advance(wire_fields(b@), done, s, b@.skip(f.next as int));
                lemma_last_field_opt_push(done, true, wf);
                reveal(opt_push);
                assert(done.push(wf).drop_last() == done);
            }
            match f.tag {
                10 => {
                    match text_at(b, &f) {
                        Some(t) => {
                            m.addr = t;
                        },
                        None => {
                            proof {
                                lemma_text_field_invalid(
                                    wire_fields(b@),
                                    done,
                                    wf,
                                    wire_fields(b@.skip(f.next as int)),
                                    app_instance_do_text_tags(),
                                );
                            }
                            return None;
                        },
                    }
                },
                16 => {
                    m.last_modified_time = #[verifier::truncate] (f.varint as u32);
                },
                26 => {
                    match text_at(b, &f) {
                        Some(t) => {
                            m.token = t;
                        },
                        None => {
                            proof {
                                lemma_text_field_invalid(
                                    wire_fields(b@),
                                    done,
                                    wf,
                                    wire_fields(b@.skip(f.next as int)),
                                    app_instance_do_text_tags(),
                                );
                            }
                            return None;
                        },
                    }
                },
                _ => {},
            }
            proof {
                done = done.push(wf);
            }
            pos = f.next;
        }
        proof {
            assert(b@.skip(pos as int) =~= Seq::<u8>::empty());
            assert(done + Seq::<WireField>::empty() =~= done);
        }
        Some(m)
    }

    /// Reads a message framed as a record (its length first).
    pub fn read_message(b: &Vec<u8>) -> (r: Option<AppInstanceDo>)
        ensures
            match unframed(b@) {
                Some(msg) => match app_instance_do_of(msg) {
                    Some(v) => r matches Some(m) && m@ == v,
                    None => r is None,
                },
                None => r is None,
            },
    {
        match unframe(b) {
            Some((start, end)) => AppInstanceDo::from_bytes(&bytes_at(b, start, end)),
            None => None,
        }
    }

    /// The message framed as a record: its length, then its bytes.
    pub fn write_message(&self) -> (r: Vec<u8>)
        ensures
            r@ == framed(fields_bytes(app_instance_do_fields(self@))),
    {
        frame(&self.to_bytes())
    }
}

/// Reading back what an `AppInstanceDo` is written as gives it back.
pub proof fn lemma_app_instance_do_round_trip(m: AppInstanceDoView)
    requires
        utf8_bytes(m.addr).len() < two64(),
        utf8_bytes(m.token).len() < two64(),
    ensures
        app_instance_do_of(fields_bytes(app_instance_do_fields(m))) == Some(m),
{
    lemma_utf8_bytes(m.addr);
    lemma_utf8_bytes(m.token);
    let b0 = Seq::<WireField>::empty();
    lemma_app_instance_do_fields_0_writable(m, b0);
    lemma_app_instance_do_fields_0_read(m, b0);
    let b1 = app_instance_do_fields_0(m, b0);
    assert(b1 == app_instance_do_fields(m));
    lemma_fields_round_trip(b1);
    assert(app_instance_do_of_fields(b1).addr == m.addr);
    assert(app_instance_do_of_fields(b1).last_modified_time == m.last_modified_time);
    assert(app_instance_do_of_fields(b1).token == m.token);
}

/// One attempt of a task as snapshots keep it.
#[derive(Debug, Default)]
pub struct TaskTryLogDo {
    pub execution_time: u32,
    pub addr: String,
}

/// The fields of a `TaskTryLogDo`, texts as characters.
pub struct TaskTryLogDoView {
    pub execution_time: u32,
    pub addr: Seq<char>,
}

impl View for TaskTryLogDo {
    type V = TaskTryLogDoView;

    open spec fn view(&self) -> TaskTryLogDoView {
        TaskTryLogDoView {
            execution_time: self.execution_time,
            addr: self.addr@,
        }
    }
}

/// The tags of the text fields of a `TaskTryLogDo`.
pub open spec fn task_try_log_do_text_tags() -> Set<int> {
    set![18int]
}

/// The `TaskTryLogDo` read from its fields: for each field the last value with its
/// tag, or the default.
pub open spec fn task_try_log_do_of_fields(fs: Seq<WireField>) -> TaskTryLogDoView {
    TaskTryLogDoView {
        execution_time: varint_of(fs, 8) as u32,
        addr: text_of(fs, 18),
    }
}

/// The `TaskTryLogDo` a message's bytes hold; None where a field cannot be read or a
/// text is not valid UTF-8.
pub open spec fn task_try_log_do_of(b: Seq<u8>) -> Option<TaskTryLogDoView> {
    match wire_fields(b) {
        Some(fs) => if texts_valid(fs, task_try_log_do_text_tags()) {
            Some(task_try_log_do_of_fields(fs))
        } else {
            None
        },
        None => None,
    }
}

/// Fields 1 to 2 of a `TaskTryLogDo` as written, after `base`.
pub open spec fn task_try_log_do_fields_0(m: TaskTryLogDoView, base: Seq<WireField>) -> Seq<WireField> {
    opt_push(
        opt_push(
        base,
        m.execution_time != 0,
        varint_field(8, m.execution_time as int),
    ),
        m.addr.len() > 0,
        bytes_field(18, utf8_bytes(m.addr)),
    )
}

/// The fields a `TaskTryLogDo` is written as: those that differ from their default,
/// in tag order.
pub open spec fn task_try_log_do_fields(m: TaskTryLogDoView) -> Seq<WireField> {
    task_try_log_do_fields_0(m, Seq::<WireField>::empty())
}

proof fn lemma_task_try_log_do_fields_0_writable(m: TaskTryLogDoView, base: Seq<WireField>)
    requires
        utf8_bytes(m.addr).len() < two64(),
        forall|i: int| 0 <= i < base.len() ==> writable(#[trigger] base[i]),
        texts_valid(base, task_try_log_do_text_tags()),
    ensures
        forall|i: int| 0 <= i < task_try_log_do_fields_0(m, base).len() ==> writable(#[trigger] task_try_log_do_fields_0(m, base)[i]),
        texts_valid(task_try_log_do_fields_0(m, base), task_try_log_do_text_tags()),
{
    lemma_utf8_bytes(m.addr);
    lemma_opt_push_writable(base, m.execution_time != 0, varint_field(8, m.execution_time as int), task_try_log_do_text_tags());
    let fs0 = opt_push(base, m.execution_time != 0, varint_field(8, m.execution_time as int));
    lemma_opt_push_writable(fs0, m.addr.len() > 0, bytes_field(18, utf8_bytes(m.addr)), task_try_log_do_text_tags());
    let fs1 = opt_push(fs0, m.addr.len() > 0, bytes_field(18, utf8_bytes(m.addr)));
    assert(fs1 == task_try_log_do_fields_0(m, base));
}

proof fn lemma_task_try_log_do_fields_0_read(m: TaskTryLogDoView, base: Seq<WireField>)
    ensures
        forall|t: int| t != 8 && t != 18 ==> #[trigger] last_field(task_try_log_do_fields_0(m, base), t) == last_field(base, t),
        last_field(task_try_log_do_fields_0(m, base), 8) == if m.execution_time != 0 {
            Some(varint_field(8, m.execution_time as int))
        } else {
            last_field(base, 8)
        },
        last_field(task_try_log_do_fields_0(m, base), 18) == if m.addr.len() > 0 {
            Some(bytes_field(18, utf8_bytes(m.addr)))
        } else {
            last_field(base, 18)
        },
{
    lemma_last_field_opt_push(base, m.execution_time != 0, varint_field(8, m.execution_time as int));
    let fs0 = opt_push(base, m.execution_time != 0, varint_field(8, m.execution_time as int));
    lemma_last_field_opt_push(fs0, m.addr.len() > 0, bytes_field(18, utf8_bytes(m.addr)));
    let fs1 = opt_push(fs0, m.addr.len() > 0, bytes_field(18, utf8_bytes(m.addr)));
    assert(fs1 == task_try_log_do_fields_0(m, base));
}

impl TaskTryLogDo {
    /// Appends fields 1 to 2 where they differ from their default.
    fn put_fields_0(&self, out: &mut Vec<u8>, Ghost(base): Ghost<Seq<WireField>>)
        requires
            old(out)@ == fields_bytes(base),
        ensures
            final(out)@ == fields_bytes(task_try_log_do_fields_0(self@, base)),
    {
        let ghost fs0 = base;
        put_varint(out, Ghost(fs0), self.execution_time != 0, 8, self.execution_time as u64);
        let ghost fs1 = opt_push(fs0, self.execution_time != 0, varint_field(8, self.execution_time as int));
        put_text(out, Ghost(fs1), 18, &self.addr);
        let ghost fs2 = opt_push(fs1, self.addr@.len() > 0, bytes_field(18, utf8_bytes(self.addr@)));
        proof {
            assert(fs2 == task_try_log_do_fields_0(self@, base));
        }
    }

    /// The message's bytes: its non-default fields in tag order.
    pub fn to_bytes(&self) -> (r: Vec<u8>)
        ensures
            r@ == fields_bytes(task_try_log_do_fields(self@)),
    {
        let mut out: Vec<u8> = Vec::new();
        let ghost b0 = Seq::<WireField>::empty();
        proof {
            reveal(fields_bytes);
            assert(out@ =~= fields_bytes(b0));
        }
        self.put_fields_0(&mut out, Ghost(b0));
        let ghost b1 = task_try_log_do_fields_0(self@, b0);
        out
    }

    /// Reads a message: for each known field the last value with its tag; other
    /// fields are skipped. None where a field cannot be read or a text is not UTF-8.
    pub fn from_bytes(b: &Vec<u8>) -> (r: Option<TaskTryLogDo>)
        ensures
            match task_try_log_do_of(b@) {
                Some(v) => r matches Some(m) && m@ == v,
                None => r is None,
            },
    {
        let mut m = TaskTryLogDo {
            execution_time: 0,
            addr: String::new(),
        };
        let ghost mut done: Seq<WireField> = Seq::empty();
        let mut pos: usize = 0;
        proof {
            assert(b@.skip(0) =~= b@);
            if let Some(w) = wire_fields(b@) {
                assert(done + w =~= w);
            }
        }
        while pos < b.len()
            invariant
                pos <= b@.len(),
                wire_fields(b@) == match wire_fields(b@.skip(pos as int)) {
                    Some(rest) => Some(done + rest),
                    None => None::<Seq<WireField>>,
                },
                texts_valid(done, task_try_log_do_text_tags()),
                m@ == task_try_log_do_of_fields(done),
            decreases b.len() - pos,
        {
            let f = match read_field(b, pos) {
                Some(f) => f,
                None => {
                    return None;
                },
            };
            let ghost s = b@.skip(pos as int);
            let ghost wf = next_field(s).unwrap().0;
            proof {
                assert(s.skip(next_field(s).unwrap().1) =~= b@.skip(f.next as int));
                lemma_fields_advance(wire_fields(b@), done, s, b@.skip(f.next as int));
                lemma_last_field_opt_push(done, true, wf);
                reveal(opt_push);
                assert(done.push(wf).drop_last() == done);
            }
            match f.tag {
                8 => {
                    m.execution_time = #[verifier::truncate] (f.varint as u32);
                },
                18 => {
                    match text_at(b, &f) {
                        Some(t) => {
                            m.addr = t;
                        },
                        None => {
                            proof {
                                lemma_text_field_invalid(
                                    wire_fields(b@),
                                    done,
                                    wf,
                                    wire_fields(b@.skip(f.next as int)),
                                    task_try_log_do_text_tags(),
                                );
                            }
                            return None;
                        },
                    }
                },
                _ => {},
            }
            proof {
                done = done.push(wf);
            }
            pos = f.next;
        }
        proof {
            assert(b@.skip(pos as int) =~= Seq::<u8>::empty());
            assert(done + Seq::<WireField>::empty() =~= done);
        }
        Some(m)
    }

    /// Reads a message framed as a record (its length first).
    pub fn read_message(b: &Vec<u8>) -> (r: Option<TaskTryLogDo>)
        ensures
            match unframed(b@) {
                Some(msg) => match task_try_log_do_of(msg) {
                    Some(v) => r matches Some(m) && m@ == v,
                    None => r is None,
                },
                None => r is None,
            },
    {
        match unframe(b) {
            Some((start, end)) => TaskTryLogDo::from_bytes(&bytes_at(b, start, end)),
            None => None,
        }
    }

    /// The message framed as a record: its length, then its bytes.
    pub fn write_message(&self) -> (r: Vec<u8>)
        ensures
            r@ == framed(fields_bytes(task_try_log_do_fields(self@))),
    {
        frame(&self.to_bytes())
    }
}

/// Reading back what a `TaskTryLogDo` is written as gives it back.
pub proof fn lemma_task_try_log_do_round_trip(m: TaskTryLogDoView)
    requires
        utf8_bytes(m.addr).len() < two64(),
    ensures
        task_try_log_do_of(fields_bytes(task_try_log_do_fields(m))) == Some(m),
{
    lemma_utf8_bytes(m.addr);
    let b0 = Seq::<WireField>::empty();
    lemma_task_try_log_do_fields_0_writable(m, b0);
    lemma_task_try_log_do_fields_0_read(m, b0);
    let b1 = task_try_log_do_fields_0(m, b0);
    assert(b1 == task_try_log_do_fields(m));
    lemma_fields_round_trip(b1);
    assert(task_try_log_do_of_fields(b1).execution_time == m.execution_time);
    assert(task_try_log_do_of_fields(b1).addr == m.addr);
}

/// An application with its instances as snapshots keep it.
#[derive(Debug, Default)]
pub struct AppInfoDo {
    pub app_name: String,
    pub namespace: String,
    pub label: String,
    pub register_type: String,
    pub tmp: bool,
    pub instances: Vec<AppInstanceDo>,
}

/// The fields of an `AppInfoDo`, texts as characters.
pub struct AppInfoDoView {
    pub app_name: Seq<char>,
    pub namespace: Seq<char>,
    pub label: Seq<char>,
    pub register_type: Seq<char>,
    pub tmp: bool,
    pub instances: Seq<AppInstanceDoView>,
}

impl View for AppInfoDo {
    type V = AppInfoDoView;

    open spec fn view(&self) -> AppInfoDoView {
        AppInfoDoView {
            app_name: self.app_name@,
            namespace: self.namespace@,
            label: self.label@,
            register_type: self.register_type@,
            tmp: self.tmp,
            instances: app_instance_do_views(self.instances@),
        }
    }
}

/// The views of some `AppInstanceDo` values.
pub open spec fn app_instance_do_views(v: Seq<AppInstanceDo>) -> Seq<AppInstanceDoView> {
    v.map_values(|x: AppInstanceDo| x@)
}

/// The `instances` of an `AppInfoDo` read from its fields.
pub open spec fn app_info_do_parts(fs: Seq<WireField>) -> Seq<AppInstanceDoView> {
    repeated_of(fs, 50).map_values(|x: Seq<u8>| app_instance_do_of(x).unwrap())
}

/// The tags of the text fields of an `AppInfoDo`.
pub open spec fn app_info_do_text_tags() -> Set<int> {
    set![10int, 18int, 26int, 34int]
}

/// The `AppInfoDo` read from its fields: for each field the last value with its
/// tag, or the default.
pub open spec fn app_info_do_of_fields(fs: Seq<WireField>) -> AppInfoDoView {
    AppInfoDoView {
        app_name: text_of(fs, 10),
        namespace: text_of(fs, 18),
        label: text_of(fs, 26),
        register_type: text_of(fs, 34),
        tmp: varint_of(fs, 40) != 0,
        instances: app_info_do_parts(fs),
    }
}

/// Each entry of `instances` in the fields reads as an `AppInstanceDo`.
pub open spec fn app_info_do_parts_valid(fs: Seq<WireField>) -> bool {
    forall|i: int| 0 <= i < repeated_of(fs, 50).len() ==> (#[trigger] app_instance_do_of(repeated_of(fs, 50)[i])) is Some
}

/// The `AppInfoDo` a message's bytes hold; None where a field cannot be read or a
/// text is not valid UTF-8.
pub open spec fn app_info_do_of(b: Seq<u8>) -> Option<AppInfoDoView> {
    match wire_fields(b) {
        Some(fs) => if texts_valid(fs, app_info_do_text_tags()) && app_info_do_parts_valid(fs) {
            Some(app_info_do_of_fields(fs))
        } else {
            None
        },
        None => None,
    }
}

/// Fields 1 to 5 of an `AppInfoDo` as written, after `base`.
pub open spec fn app_info_do_fields_0(m: AppInfoDoView, base: Seq<WireField>) -> Seq<WireField> {
    opt_push(
        opt_push(
        opt_push(
        opt_push(
        opt_push(
        base,
        m.app_name.len() > 0,
        bytes_field(10, utf8_bytes(m.app_name)),
    ),
        m.namespace.len() > 0,
        bytes_field(18, utf8_bytes(m.namespace)),
    ),
        m.label.len() > 0,
        bytes_field(26, utf8_bytes(m.label)),
    ),
        m.register_type.len() > 0,
        bytes_field(34, utf8_bytes(m.register_type)),
    ),
        m.tmp,
        varint_field(40, 1),
    )
}

/// The bytes of each entry of `instances` of an `AppInfoDo`.
pub open spec fn app_info_do_instances_items(m: AppInfoDoView) -> Seq<Seq<u8>> {
    m.instances.map_values(|x: AppInstanceDoView| fields_bytes(app_instance_do_fields(x)))
}

/// The fields an `AppInfoDo` is written as: those that differ from their default,
/// in tag order.
pub open spec fn app_info_do_fields(m: AppInfoDoView) -> Seq<WireField> {
    repeated_fields(app_info_do_fields_0(m, Seq::<WireField>::empty()), 50, app_info_do_instances_items(m))
}

proof fn lemma_app_info_do_fields_0_writable(m: AppInfoDoView, base: Seq<WireField>)
    requires
        utf8_bytes(m.app_name).len() < two64(),
        utf8_bytes(m.namespace).len() < two64(),
        utf8_bytes(m.label).len() < two64(),
        utf8_bytes(m.register_type).len() < two64(),
        forall|i: int| 0 <= i < base.len() ==> writable(#[trigger] base[i]),
        texts_valid(base, app_info_do_text_tags()),
    ensures
        forall|i: int| 0 <= i < app_info_do_fields_0(m, base).len() ==> writable(#[trigger] app_info_do_fields_0(m, base)[i]),
        texts_valid(app_info_do_fields_0(m, base), app_info_do_text_tags()),
{
    lemma_utf8_bytes(m.app_name);
    lemma_utf8_bytes(m.namespace);
    lemma_utf8_bytes(m.label);
    lemma_utf8_bytes(m.register_type);
    lemma_opt_push_writable(base, m.app_name.len() > 0, bytes_field(10, utf8_bytes(m.app_name)), app_info_do_text_tags());
    let fs0 = opt_push(base, m.app_name.len() > 0, bytes_field(10, utf8_bytes(m.app_name)));
    lemma_opt_push_writable(fs0, m.namespace.len() > 0, bytes_field(18, utf8_bytes(m.namespace)), app_info_do_text_tags());
    let fs1 = opt_push(fs0, m.namespace.len() > 0, bytes_field(18, utf8_bytes(m.namespace)));
    lemma_opt_push_writable(fs1, m.label.len() > 0, bytes_field(26, utf8_bytes(m.label)), app_info_do_text_tags());
    let fs2 = opt_push(fs1, m.label.len() > 0, bytes_field(26, utf8_bytes(m.label)));
    lemma_opt_push_writable(fs2, m.register_type.len() > 0, bytes_field(34, utf8_bytes(m.register_type)), app_info_do_text_tags());
    let fs3 = opt_push(fs2, m.register_type.len() > 0, bytes_field(34, utf8_bytes(m.register_type)));
    lemma_opt_push_writable(fs3, m.tmp, varint_field(40, 1), app_info_do_text_tags());
    let fs4 = opt_push(fs3, m.tmp, varint_field(40, 1));
    assert(fs4 == app_info_do_fields_0(m, base));
}

proof fn lemma_app_info_do_fields_0_read(m: AppInfoDoView, base: Seq<WireField>)
    ensures
        forall|t: int| t != 10 && t != 18 && t != 26 && t != 34 && t != 40 ==> #[trigger] last_field(app_info_do_fields_0(m, base), t) == last_field(base, t),
        last_field(app_info_do_fields_0(m, base), 10) == if m.app_name.len() > 0 {
            Some(bytes_field(10, utf8_bytes(m.app_name)))
        } else {
            last_field(base, 10)
        },
        last_field(app_info_do_fields_0(m, base), 18) == if m.namespace.len() > 0 {
            Some(bytes_field(18, utf8_bytes(m.namespace)))
        } else {
            last_field(base, 18)
        },
        last_field(app_info_do_fields_0(m, base), 26) == if m.label.len() > 0 {
            Some(bytes_field(26, utf8_bytes(m.label)))
        } else {
            last_field(base, 26)
        },
        last_field(app_info_do_fields_0(m, base), 34) == if m.register_type.len() > 0 {
            Some(bytes_field(34, utf8_bytes(m.register_type)))
        } else {
            last_field(base, 34)
        },
        last_field(app_info_do_fields_0(m, base), 40) == if m.tmp {
            Some(varint_field(40, 1))
        } else {
            last_field(base, 40)
        },
        repeated_of(app_info_do_fields_0(m, base), 50) == repeated_of(base, 50),
{
    lemma_last_field_opt_push(base, m.app_name.len() > 0, bytes_field(10, utf8_bytes(m.app_name)));
    lemma_repeated_of_opt_push(base, m.app_name.len() > 0, bytes_field(10, utf8_bytes(m.app_name)), 50);
    let fs0 = opt_push(base, m.app_name.len() > 0, bytes_field(10, utf8_bytes(m.app_name)));
    lemma_last_field_opt_push(fs0, m.namespace.len() > 0, bytes_field(18, utf8_bytes(m.namespace)));
    lemma_repeated_of_opt_push(fs0, m.namespace.len() > 0, bytes_field(18, utf8_bytes(m.namespace)), 50);
    let fs1 = opt_push(fs0, m.namespace.len() > 0, bytes_field(18, utf8_bytes(m.namespace)));
    lemma_last_field_opt_push(fs1, m.label.len() > 0, bytes_field(26, utf8_bytes(m.label)));
    lemma_repeated_of_opt_push(fs1, m.label.len() > 0, bytes_field(26, utf8_bytes(m.label)), 50);
    let fs2 = opt_push(fs1, m.label.len() > 0, bytes_field(26, utf8_bytes(m.label)));
    lemma_last_field_opt_push(fs2, m.register_type.len() > 0, bytes_field(34, utf8_bytes(m.register_type)));
    lemma_repeated_of_opt_push(fs2, m.register_type.len() > 0, bytes_field(34, utf8_bytes(m.register_type)), 50);
    let fs3 = opt_push(fs2, m.register_type.len() > 0, bytes_field(34, utf8_bytes(m.register_type)));
    lemma_last_field_opt_push(fs3, m.tmp, varint_field(40, 1));
    lemma_repeated_of_opt_push(fs3, m.tmp, varint_field(40, 1), 50);
    let fs4 = opt_push(fs3, m.tmp, varint_field(40, 1));
    assert(fs4 == app_info_do_fields_0(m, base));
}

/// Reading one more entry of `instances`: the entries read so far, with it, are those of the
/// fields read so far with its field.
proof fn lemma_app_info_do_part_read(done: Seq<WireField>, wf: WireField, parts: Seq<AppInstanceDoView>, part: AppInstanceDoView)
    requires
        parts == app_info_do_parts(done),
        app_info_do_parts_valid(done),
        wf.tag == 50,
        app_instance_do_of(wf.bytes) == Some(part),
    ensures
        parts.push(part) == app_info_do_parts(done.push(wf)),
        app_info_do_parts_valid(done.push(wf)),
{
    assert(done.push(wf).drop_last() == done);
    let r = repeated_of(done.push(wf), 50);
    assert(r == repeated_of(done, 50).push(wf.bytes));
    assert(parts.push(part) =~= app_info_do_parts(done.push(wf)));
    assert forall|i: int| 0 <= i < r.len() implies (#[trigger] app_instance_do_of(r[i])) is Some by {
        if i < r.len() - 1 {
            assert(r[i] == repeated_of(done, 50)[i]);
        }
    }
}

/// An entry of `instances` that cannot be read spoils the whole message.
proof fn lemma_app_info_do_part_unreadable(
    whole: Option<Seq<WireField>>,
    done: Seq<WireField>,
    wf: WireField,
    rest: Option<Seq<WireField>>,
)
    requires
        whole == match rest {
            Some(r) => Some(done.push(wf) + r),
            None => None::<Seq<WireField>>,
        },
        wf.tag == 50,
        app_instance_do_of(wf.bytes) is None,
    ensures
        !(whole matches Some(w) && app_info_do_parts_valid(w)),
{
    if let Some(r) = rest {
        let w = done.push(wf) + r;
        lemma_repeated_of_concat(done.push(wf), r, 50);
        assert(done.push(wf).drop_last() == done);
        let k = repeated_of(done, 50).len() as int;
        assert(repeated_of(w, 50)[k] == wf.bytes);
        assert(app_instance_do_of(repeated_of(w, 50)[k]) is None);
    }
}

impl AppInfoDo {
    /// Appends fields 1 to 5 where they differ from their default.
    fn put_fields_0(&self, out: &mut Vec<u8>, Ghost(base): Ghost<Seq<WireField>>)
        requires
            old(out)@ == fields_bytes(base),
        ensures
            final(out)@ == fields_bytes(app_info_do_fields_0(self@, base)),
    {
        let ghost fs0 = base;
        put_text(out, Ghost(fs0), 10, &self.app_name);
        let ghost fs1 = opt_push(fs0, self.app_name@.len() > 0, bytes_field(10, utf8_bytes(self.app_name@)));
        put_text(out, Ghost(fs1), 18, &self.namespace);
        let ghost fs2 = opt_push(fs1, self.namespace@.len() > 0, bytes_field(18, utf8_bytes(self.namespace@)));
        put_text(out, Ghost(fs2), 26, &self.label);
        let ghost fs3 = opt_push(fs2, self.label@.len() > 0, bytes_field(26, utf8_bytes(self.label@)));
        put_text(out, Ghost(fs3), 34, &self.register_type);
        let ghost fs4 = opt_push(fs3, self.register_type@.len() > 0, bytes_field(34, utf8_bytes(self.register_type@)));
        put_varint(out, Ghost(fs4), self.tmp, 40, 1);
        let ghost fs5 = opt_push(fs4, self.tmp, varint_field(40, 1));
        proof {
            assert(fs5 == app_info_do_fields_0(self@, base));
        }
    }

    /// The message's bytes: its non-default fields in tag order.
    pub fn to_bytes(&self) -> (r: Vec<u8>)
        ensures
            r@ == fields_bytes(app_info_do_fields(self@)),
    {
        let mut out: Vec<u8> = Vec::new();
        let ghost b0 = Seq::<WireField>::empty();
        proof {
            reveal(fields_bytes);
            assert(out@ =~= fields_bytes(b0));
        }
        self.put_fields_0(&mut out, Ghost(b0));
        let ghost b1 = app_info_do_fields_0(self@, b0);
        let ghost items = app_info_do_instances_items(self@);
        let mut i: usize = 0;
        proof {
            assert(items.take(0) =~= Seq::<Seq<u8>>::empty());
        }
        while i < self.instances.len()
            invariant
                i <= self.instances@.len(),
                items == app_info_do_instances_items(self@),
                out@ == fields_bytes(repeated_fields(b1, 50, items.take(i as int))),
            decreases self.instances.len() - i,
        {
            let part = self.instances[i].to_bytes();
            push_bytes_field(&mut out, 50, part.as_slice());
            proof {
                reveal(fields_bytes);
                let t = items.take(i + 1);
                assert(t.drop_last() =~= items.take(i as int));
                assert(t.last() == part@);
                assert(repeated_fields(b1, 50, t) == repeated_fields(b1, 50, items.take(i as int)).push(bytes_field(50, part@)));
                assert(repeated_fields(b1, 50, t).drop_last() == repeated_fields(b1, 50, items.take(i as int)));
            }
            i = i + 1;
        }
        proof {
            assert(items.take(i as int) =~= items);
        }
        out
    }

    /// Reads a message: for each known field the last value with its tag; other
    /// fields are skipped. None where a field cannot be read or a text is not UTF-8.
    pub fn from_bytes(b: &Vec<u8>) -> (r: Option<AppInfoDo>)
        ensures
            match app_info_do_of(b@) {
                Some(v) => r matches Some(m) && m@ == v,
                None => r is None,
            },
    {
        let mut m = AppInfoDo {
            app_name: String::new(),
            namespace: String::new(),
            label: String::new(),
            register_type: String::new(),
            tmp: false,
            instances: Vec::new(),
        };
        let ghost mut done: Seq<WireField> = Seq::empty();
        let mut pos: usize = 0;
        proof {
            assert(app_instance_do_views(m.instances@) =~= app_info_do_parts(Seq::<WireField>::empty()));
            assert(b@.skip(0) =~= b@);
            if let Some(w) = wire_fields(b@) {
                assert(done + w =~= w);
            }
        }
        while pos < b.len()
            invariant
                pos <= b@.len(),
                wire_fields(b@) == match wire_fields(b@.skip(pos as int)) {
                    Some(rest) => Some(done + rest),
                    None => None::<Seq<WireField>>,
                },
                texts_valid(done, app_info_do_text_tags()),
                app_info_do_parts_valid(done),
                m@ == app_info_do_of_fields(done),
            decreases b.len() - pos,
        {
            let f = match read_field(b, pos) {
                Some(f) => f,
                None => {
                    return None;
                },
            };
            let ghost s = b@.skip(pos as int);
            let ghost wf = next_field(s).unwrap().0;
            proof {
                assert(s.skip(next_field(s).unwrap().1) =~= b@.skip(f.next as int));
                lemma_fields_advance(wire_fields(b@), done, s, b@.skip(f.next as int));
                lemma_last_field_opt_push(done, true, wf);
                reveal(opt_push);
                assert(done.push(wf).drop_last() == done);
                assert(repeated_of(done.push(wf), 50) == if wf.tag == 50 {
                    repeated_of(done, 50).push(wf.bytes)
                } else {
                    repeated_of(done, 50)
                });
            }
            match f.tag {
                10 => {
                    match text_at(b, &f) {
                        Some(t) => {
                            m.app_name = t;
                        },
                        None => {
                            proof {
                                lemma_text_field_invalid(
                                    wire_fields(b@),
                                    done,
                                    wf,
                                    wire_fields(b@.skip(f.next as int)),
                                    app_info_do_text_tags(),
                                );
                            }
                            return None;
                        },
                    }
                },
                18 => {
                    match text_at(b, &f) {
                        Some(t) => {
                            m.namespace = t;
                        },
                        None => {
                            proof {
                                lemma_text_field_invalid(
                                    wire_fields(b@),
                                    done,
                                    wf,
                                    wire_fields(b@.skip(f.next as int)),
                                    app_info_do_text_tags(),
                                );
                            }
                            return None;
                        },
                    }
                },
                26 => {
                    match text_at(b, &f) {
                        Some(t) => {
                            m.label = t;
                        },
                        None => {
                            proof {
                                lemma_text_field_invalid(
                                    wire_fields(b@),
                                    done,
                                    wf,
                                    wire_fields(b@.skip(f.next as int)),
                                    app_info_do_text_tags(),
                                );
                            }
                            return None;
                        },
                    }
                },
                34 => {
                    match text_at(b, &f) {
                        Some(t) => {
                            m.register_type = t;
                        },
                        None => {
                            proof {
                                lemma_text_field_invalid(
                                    wire_fields(b@),
                                    done,
                                    wf,
                                    wire_fields(b@.skip(f.next as int)),
                                    app_info_do_text_tags(),
                                );
                            }
                            return None;
                        },
                    }
                },
                40 => {
                    m.tmp = f.varint != 0;
                },
                50 => {
                    match AppInstanceDo::from_bytes(&bytes_at(b, f.start, f.end)) {
                        Some(part) => {
                            let ghost prev = m.instances@;
                            proof {
                                lemma_app_info_do_part_read(done, wf, app_instance_do_views(prev), part@);
                            }
                            m.instances.push(part);
                            proof {
                                assert(app_instance_do_views(m.instances@) =~= app_instance_do_views(prev).push(part@));
                            }
                        },
                        None => {
                            proof {
                                lemma_app_info_do_part_unreadable(
                                    wire_fields(b@),
                                    done,
                                    wf,
                                    wire_fields(b@.skip(f.next as int)),
                                );
                            }
                            return None;
                        },
                    }
                },
                _ => {},
            }
            proof {
                done = done.push(wf);
            }
            pos = f.next;
        }
        proof {
            assert(b@.skip(pos as int) =~= Seq::<u8>::empty());
            assert(done + Seq::<WireField>::empty() =~= done);
        }
        Some(m)
    }

    /// Reads a message framed as a record (its length first).
    pub fn read_message(b: &Vec<u8>) -> (r: Option<AppInfoDo>)
        ensures
            match unframed(b@) {
                Some(msg) => match app_info_do_of(msg) {
                    Some(v) => r matches Some(m) && m@ == v,
                    None => r is None,
                },
                None => r is None,
            },
    {
        match unframe(b) {
            Some((start, end)) => AppInfoDo::from_bytes(&bytes_at(b, start, end)),
            None => None,
        }
    }

    /// The message framed as a record: its length, then its bytes.
    pub fn write_message(&self) -> (r: Vec<u8>)
        ensures
            r@ == framed(fields_bytes(app_info_do_fields(self@))),
    {
        frame(&self.to_bytes())
    }
}

/// Reading back what an `AppInfoDo` is written as gives it back.
pub proof fn lemma_app_info_do_round_trip(m: AppInfoDoView)
    requires
        utf8_bytes(m.app_name).len() < two64(),
        utf8_bytes(m.namespace).len() < two64(),
        utf8_bytes(m.label).len() < two64(),
        utf8_bytes(m.register_type).len() < two64(),
        forall|i: int| 0 <= i < m.instances.len() ==> utf8_bytes(#[trigger] m.instances[i].addr).len() < two64(),
        forall|i: int| 0 <= i < m.instances.len() ==> utf8_bytes(#[trigger] m.instances[i].token).len() < two64(),
        forall|i: int| 0 <= i < m.instances.len() ==> fields_bytes(app_instance_do_fields(#[trigger] m.instances[i])).len() < two64(),
    ensures
        app_info_do_of(fields_bytes(app_info_do_fields(m))) == Some(m),
{
    lemma_utf8_bytes(m.app_name);
    lemma_utf8_bytes(m.namespace);
    lemma_utf8_bytes(m.label);
    lemma_utf8_bytes(m.register_type);
    let b0 = Seq::<WireField>::empty();
    lemma_app_info_do_fields_0_writable(m, b0);
    lemma_app_info_do_fields_0_read(m, b0);
    let b1 = app_info_do_fields_0(m, b0);
    let items = app_info_do_instances_items(m);
    assert forall|i: int| 0 <= i < items.len() implies #[trigger] items[i].len() < two64() by {
        assert(items[i] == fields_bytes(app_instance_do_fields(m.instances[i])));
    }
    lemma_repeated_fields(b1, 50, items, app_info_do_text_tags());
    let fs = repeated_fields(b1, 50, items);
    assert(fs == app_info_do_fields(m));
    lemma_fields_round_trip(fs);
    assert(repeated_of(fs, 50) =~= items);
    assert forall|i: int| 0 <= i < items.len() implies app_instance_do_of(items[i]) == Some(m.instances[i]) by {
        assert(items[i] == fields_bytes(app_instance_do_fields(m.instances[i])));
        assert(utf8_bytes(m.instances[i].addr).len() < two64());
        assert(utf8_bytes(m.instances[i].token).len() < two64());
        lemma_app_instance_do_round_trip(m.instances[i]);
    }
    assert(app_info_do_parts_valid(fs));
    assert(app_info_do_of_fields(fs).instances =~= m.instances);
    assert(app_info_do_of_fields(fs).app_name == m.app_name);
    assert(app_info_do_of_fields(fs).namespace == m.namespace);
    assert(app_info_do_of_fields(fs).label == m.label);
    assert(app_info_do_of_fields(fs).register_type == m.register_type);
    assert(app_info_do_of_fields(fs).tmp == m.tmp);
}

/// A task run of a job with its attempts as snapshots keep it.
#[derive(Debug, Default)]
pub struct JobTaskDo {
    pub task_id: u64,
    pub job_id: u64,
    pub trigger_time: u32,
    pub instance_addr: String,
    pub trigger_message: String,
    pub status: String,
    pub finish_time: u32,
    pub callback_message: String,
    pub execution_time: u32,
    pub trigger_from: String,
    pub try_times: u32,
    pub retry_interval: u32,
    pub retry_count: u32,
    pub try_logs: Vec<TaskTryLogDo>,
}

/// The fields of a `JobTaskDo`, texts as characters.
pub struct JobTaskDoView {
    pub task_id: u64,
    pub job_id: u64,
    pub trigger_time: u32,
    pub instance_addr: Seq<char>,
    pub trigger_message: Seq<char>,
    pub status: Seq<char>,
    pub finish_time: u32,
    pub callback_message: Seq<char>,
    pub execution_time: u32,
    pub trigger_from: Seq<char>,
    pub try_times: u32,
    pub retry_interval: u32,
    pub retry_count: u32,
    pub try_logs: Seq<TaskTryLogDoView>,
}

impl View for JobTaskDo {
    type V = JobTaskDoView;

    open spec fn view(&self) -> JobTaskDoView {
        JobTaskDoView {
            task_id: self.task_id,
            job_id: self.job_id,
            trigger_time: self.trigger_time,
            instance_addr: self.instance_addr@,
            trigger_message: self.trigger_message@,
            status: self.status@,
            finish_time: self.finish_time,
            callback_message: self.callback_message@,
            execution_time: self.execution_time,
            trigger_from: self.trigger_from@,
            try_times: self.try_times,
            retry_interval: self.retry_interval,
            retry_count: self.retry_count,
            try_logs: task_try_log_do_views(self.try_logs@),
        }
    }
}

/// The views of some `TaskTryLogDo` values.
pub open spec fn task_try_log_do_views(v: Seq<TaskTryLogDo>) -> Seq<TaskTryLogDoView> {
    v.map_values(|x: TaskTryLogDo| x@)
}

/// The `try_logs` of a `JobTaskDo` read from its fields.
pub open spec fn job_task_do_parts(fs: Seq<WireField>) -> Seq<TaskTryLogDoView> {
    repeated_of(fs, 98).map_values(|x: Seq<u8>| task_try_log_do_of(x).unwrap())
}

/// The tags of the text fields of a `JobTaskDo`.
pub open spec fn job_task_do_text_tags() -> Set<int> {
    set![34int, 42int, 50int, 66int, 82int]
}

/// The `JobTaskDo` read from its fields: for each field the last value with its
/// tag, or the default.
pub open spec fn job_task_do_of_fields(fs: Seq<WireField>) -> JobTaskDoView {
    JobTaskDoView {
        task_id: varint_of(fs, 8) as u64,
        job_id: varint_of(fs, 16) as u64,
        trigger_time: varint_of(fs, 24) as u32,
        instance_addr: text_of(fs, 34),
        trigger_message: text_of(fs, 42),
        status: text_of(fs, 50),
        finish_time: varint_of(fs, 56) as u32,
        callback_message: text_of(fs, 66),
        execution_time: varint_of(fs, 72) as u32,
        trigger_from: text_of(fs, 82),
        try_times: varint_of(fs, 88) as u32,
        retry_interval: varint_of(fs, 104) as u32,
        retry_count: varint_of(fs, 112) as u32,
        try_logs: job_task_do_parts(fs),
    }
}

/// Each entry of `try_logs` in the fields reads as a `TaskTryLogDo`.
pub open spec fn job_task_do_parts_valid(fs: Seq<WireField>) -> bool {
    forall|i: int| 0 <= i < repeated_of(fs, 98).len() ==> (#[trigger] task_try_log_do_of(repeated_of(fs, 98)[i])) is Some
}

/// The `JobTaskDo` a message's bytes hold; None where a field cannot be read or a
/// text is not valid UTF-8.
pub open spec fn job_task_do_of(b: Seq<u8>) -> Option<JobTaskDoView> {
    match wire_fields(b) {
        Some(fs) => if texts_valid(fs, job_task_do_text_tags()) && job_task_do_parts_valid(fs) {
            Some(job_task_do_of_fields(fs))
        } else {
            None
        },
        None => None,
    }
}

/// Fields 1 to 7 of a `JobTaskDo` as written, after `base`.
pub open spec fn job_task_do_fields_0(m: JobTaskDoView, base: Seq<WireField>) -> Seq<WireField> {
    opt_push(
        opt_push(
        opt_push(
        opt_push(
        opt_push(
        opt_push(
        opt_push(
        base,
        m.task_id != 0,
        varint_field(8, m.task_id as int),
    ),
        m.job_id != 0,
        varint_field(16, m.job_id as int),
    ),
        m.trigger_time != 0,
        varint_field(24, m.trigger_time as int),
    ),
        m.instance_addr.len() > 0,
        bytes_field(34, utf8_bytes(m.instance_addr)),
    ),
        m.trigger_message.len() > 0,
        bytes_field(42, utf8_bytes(m.trigger_message)),
    ),
        m.status.len() > 0,
        bytes_field(50, utf8_bytes(m.status)),
    ),
        m.finish_time != 0,
        varint_field(56, m.finish_time as int),
    )
}

/// Fields 8 to 13 of a `JobTaskDo` as written, after `base`.
pub open spec fn job_task_do_fields_1(m: JobTaskDoView, base: Seq<WireField>) -> Seq<WireField> {
    opt_push(
        opt_push(
        opt_push(
        opt_push(
        opt_push(
        opt_push(
        base,
        m.callback_message.len() > 0,
        bytes_field(66, utf8_bytes(m.callback_message)),
    ),
        m.execution_time != 0,
        varint_field(72, m.execution_time as int),
    ),
        m.trigger_from.len() > 0,
        bytes_field(82, utf8_bytes(m.trigger_from)),
    ),
        m.try_times != 0,
        varint_field(88, m.try_times as int),
    ),
        m.retry_interval != 0,
        varint_field(104, m.retry_interval as int),
    ),
        m.retry_count != 0,
        varint_field(112, m.retry_count as int),
    )
}

/// The bytes of each entry of `try_logs` of a `JobTaskDo`.
pub open spec fn job_task_do_try_logs_items(m: JobTaskDoView) -> Seq<Seq<u8>> {
    m.try_logs.map_values(|x: TaskTryLogDoView| fields_bytes(task_try_log_do_fields(x)))
}

/// The fields a `JobTaskDo` is written as: those that differ from their default,
/// in tag order.
pub open spec fn job_task_do_fields(m: JobTaskDoView) -> Seq<WireField> {
    repeated_fields(job_task_do_fields_1(m, job_task_do_fields_0(m, Seq::<WireField>::empty())), 98, job_task_do_try_logs_items(m))
}

proof fn lemma_job_task_do_fields_0_writable(m: JobTaskDoView, base: Seq<WireField>)
    requires
        utf8_bytes(m.instance_addr).len() < two64(),
        utf8_bytes(m.trigger_message).len() < two64(),
        utf8_bytes(m.status).len() < two64(),
        forall|i: int| 0 <= i < base.len() ==> writable(#[trigger] base[i]),
        texts_valid(base, job_task_do_text_tags()),
    ensures
        forall|i: int| 0 <= i < job_task_do_fields_0(m, base).len() ==> writable(#[trigger] job_task_do_fields_0(m, base)[i]),
        texts_valid(job_task_do_fields_0(m, base), job_task_do_text_tags()),
{
    lemma_utf8_bytes(m.instance_addr);
    lemma_utf8_bytes(m.trigger_message);
    lemma_utf8_bytes(m.status);
    lemma_opt_push_writable(base, m.task_id != 0, varint_field(8, m.task_id as int), job_task_do_text_tags());
    let fs0 = opt_push(base, m.task_id != 0, varint_field(8, m.task_id as int));
    lemma_opt_push_writable(fs0, m.job_id != 0, varint_field(16, m.job_id as int), job_task_do_text_tags());
    let fs1 = opt_push(fs0, m.job_id != 0, varint_field(16, m.job_id as int));
    lemma_opt_push_writable(fs1, m.trigger_time != 0, varint_field(24, m.trigger_time as int), job_task_do_text_tags());
    let fs2 = opt_push(fs1, m.trigger_time != 0, varint_field(24, m.trigger_time as int));
    lemma_opt_push_writable(fs2, m.instance_addr.len() > 0, bytes_field(34, utf8_bytes(m.instance_addr)), job_task_do_text_tags());
    let fs3 = opt_push(fs2, m.instance_addr.len() > 0, bytes_field(34, utf8_bytes(m.instance_addr)));
    lemma_opt_push_writable(fs3, m.trigger_message.len() > 0, bytes_field(42, utf8_bytes(m.trigger_message)), job_task_do_text_tags());
    let fs4 = opt_push(fs3, m.trigger_message.len() > 0, bytes_field(42, utf8_bytes(m.trigger_message)));
    lemma_opt_push_writable(fs4, m.status.len() > 0, bytes_field(50, utf8_bytes(m.status)), job_task_do_text_tags());
    let fs5 = opt_push(fs4, m.status.len() > 0, bytes_field(50, utf8_bytes(m.status)));
    lemma_opt_push_writable(fs5, m.finish_time != 0, varint_field(56, m.finish_time as int), job_task_do_text_tags());
    let fs6 = opt_push(fs5, m.finish_time != 0, varint_field(56, m.finish_time as int));
    assert(fs6 == job_task_do_fields_0(m, base));
}

proof fn lemma_job_task_do_fields_0_read(m: JobTaskDoView, base: Seq<WireField>)
    ensures
        forall|t: int| t != 8 && t != 16 && t != 24 && t != 34 && t != 42 && t != 50 && t != 56 ==> #[trigger] last_field(job_task_do_fields_0(m, base), t) == last_field(base, t),
        last_field(job_task_do_fields_0(m, base), 8) == if m.task_id != 0 {
            Some(varint_field(8, m.task_id as int))
        } else {
            last_field(base, 8)
        },
        last_field(job_task_do_fields_0(m, base), 16) == if m.job_id != 0 {
            Some(varint_field(16, m.job_id as int))
        } else {
            last_field(base, 16)
        },
        last_field(job_task_do_fields_0(m, base), 24) == if m.trigger_time != 0 {
            Some(varint_field(24, m.trigger_time as int))
        } else {
            last_field(base, 24)
        },
        last_field(job_task_do_fields_0(m, base), 34) == if m.instance_addr.len() > 0 {
            Some(bytes_field(34, utf8_bytes(m.instance_addr)))
        } else {
            last_field(base, 34)
        },
        last_field(job_task_do_fields_0(m, base), 42) == if m.trigger_message.len() > 0 {
            Some(bytes_field(42, utf8_bytes(m.trigger_message)))
        } else {
            last_field(base, 42)
        },
        last_field(job_task_do_fields_0(m, base), 50) == if m.status.len() > 0 {
            Some(bytes_field(50, utf8_bytes(m.status)))
        } else {
            last_field(base, 50)
        },
        last_field(job_task_do_fields_0(m, base), 56) == if m.finish_time != 0 {
            Some(varint_field(56, m.finish_time as int))
        } else {
            last_field(base, 56)
        },
        repeated_of(job_task_do_fields_0(m, base), 98) == repeated_of(base, 98),
{
    lemma_last_field_opt_push(base, m.task_id != 0, varint_field(8, m.task_id as int));
    lemma_repeated_of_opt_push(base, m.task_id != 0, varint_field(8, m.task_id as int), 98);
    let fs0 = opt_push(base, m.task_id != 0, varint_field(8, m.task_id as int));
    lemma_last_field_opt_push(fs0, m.job_id != 0, varint_field(16, m.job_id as int));
    lemma_repeated_of_opt_push(fs0, m.job_id != 0, varint_field(16, m.job_id as int), 98);
    let fs1 = opt_push(fs0, m.job_id != 0, varint_field(16, m.job_id as int));
    lemma_last_field_opt_push(fs1, m.trigger_time != 0, varint_field(24, m.trigger_time as int));
    lemma_repeated_of_opt_push(fs1, m.trigger_time != 0, varint_field(24, m.trigger_time as int), 98);
    let fs2 = opt_push(fs1, m.trigger_time != 0, varint_field(24, m.trigger_time as int));
    lemma_last_field_opt_push(fs2, m.instance_addr.len() > 0, bytes_field(34, utf8_bytes(m.instance_addr)));
    lemma_repeated_of_opt_push(fs2, m.instance_addr.len() > 0, bytes_field(34, utf8_bytes(m.instance_addr)), 98);
    let fs3 = opt_push(fs2, m.instance_addr.len() > 0, bytes_field(34, utf8_bytes(m.instance_addr)));
    lemma_last_field_opt_push(fs3, m.trigger_message.len() > 0, bytes_field(42, utf8_bytes(m.trigger_message)));
    lemma_repeated_of_opt_push(fs3, m.trigger_message.len() > 0, bytes_field(42, utf8_bytes(m.trigger_message)), 98);
    let fs4 = opt_push(fs3, m.trigger_message.len() > 0, bytes_field(42, utf8_bytes(m.trigger_message)));
    lemma_last_field_opt_push(fs4, m.status.len() > 0, bytes_field(50, utf8_bytes(m.status)));
    lemma_repeated_of_opt_push(fs4, m.status.len() > 0, bytes_field(50, utf8_bytes(m.status)), 98);
    let fs5 = opt_push(fs4, m.status.len() > 0, bytes_field(50, utf8_bytes(m.status)));
    lemma_last_field_opt_push(fs5, m.finish_time != 0, varint_field(56, m.finish_time as int));
    lemma_repeated_of_opt_push(fs5, m.finish_time != 0, varint_field(56, m.finish_time as int), 98);
    let fs6 = opt_push(fs5, m.finish_time != 0, varint_field(56, m.finish_time as int));
    assert(fs6 == job_task_do_fields_0(m, base));
}

proof fn lemma_job_task_do_fields_1_writable(m: JobTaskDoView, base: Seq<WireField>)
    requires
        utf8_bytes(m.callback_message).len() < two64(),
        utf8_bytes(m.trigger_from).len() < two64(),
        forall|i: int| 0 <= i < base.len() ==> writable(#[trigger] base[i]),
        texts_valid(base, job_task_do_text_tags()),
    ensures
        forall|i: int| 0 <= i < job_task_do_fields_1(m, base).len() ==> writable(#[trigger] job_task_do_fields_1(m, base)[i]),
        texts_valid(job_task_do_fields_1(m, base), job_task_do_text_tags()),
{
    lemma_utf8_bytes(m.callback_message);
    lemma_utf8_bytes(m.trigger_from);
    lemma_opt_push_writable(base, m.callback_message.len() > 0, bytes_field(66, utf8_bytes(m.callback_message)), job_task_do_text_tags());
    let fs0 = opt_push(base, m.callback_message.len() > 0, bytes_field(66, utf8_bytes(m.callback_message)));
    lemma_opt_push_writable(fs0, m.execution_time != 0, varint_field(72, m.execution_time as int), job_task_do_text_tags());
    let fs1 = opt_push(fs0, m.execution_time != 0, varint_field(72, m.execution_time as int));
    lemma_opt_push_writable(fs1, m.trigger_from.len() > 0, bytes_field(82, utf8_bytes(m.trigger_from)), job_task_do_text_tags());
    let fs2 = opt_push(fs1, m.trigger_from.len() > 0, bytes_field(82, utf8_bytes(m.trigger_from)));
    lemma_opt_push_writable(fs2, m.try_times != 0, varint_field(88, m.try_times as int), job_task_do_text_tags());
    let fs3 = opt_push(fs2, m.try_times != 0, varint_field(88, m.try_times as int));
    lemma_opt_push_writable(fs3, m.retry_interval != 0, varint_field(104, m.retry_interval as int), job_task_do_text_tags());
    let fs4 = opt_push(fs3, m.retry_interval != 0, varint_field(104, m.retry_interval as int));
    lemma_opt_push_writable(fs4, m.retry_count != 0, varint_field(112, m.retry_count as int), job_task_do_text_tags());
    let fs5 = opt_push(fs4, m.retry_count != 0, varint_field(112, m.retry_count as int));
    assert(fs5 == job_task_do_fields_1(m, base));
}

proof fn lemma_job_task_do_fields_1_read(m: JobTaskDoView, base: Seq<WireField>)
    ensures
        forall|t: int| t != 66 && t != 72 && t != 82 && t != 88 && t != 104 && t != 112 ==> #[trigger] last_field(job_task_do_fields_1(m, base), t) == last_field(base, t),
        last_field(job_task_do_fields_1(m, base), 66) == if m.callback_message.len() > 0 {
            Some(bytes_field(66, utf8_bytes(m.callback_message)))
        } else {
            last_field(base, 66)
        },
        last_field(job_task_do_fields_1(m, base), 72) == if m.execution_time != 0 {
            Some(varint_field(72, m.execution_time as int))
        } else {
            last_field(base, 72)
        },
        last_field(job_task_do_fields_1(m, base), 82) == if m.trigger_from.len() > 0 {
            Some(bytes_field(82, utf8_bytes(m.trigger_from)))
        } else {
            last_field(base, 82)
        },
        last_field(job_task_do_fields_1(m, base), 88) == if m.try_times != 0 {
            Some(varint_field(88, m.try_times as int))
        } else {
            last_field(base, 88)
        },
        last_field(job_task_do_fields_1(m, base), 104) == if m.retry_interval != 0 {
            Some(varint_field(104, m.retry_interval as int))
        } else {
            last_field(base, 104)
        },
        last_field(job_task_do_fields_1(m, base), 112) == if m.retry_count != 0 {
            Some(varint_field(112, m.retry_count as int))
        } else {
            last_field(base, 112)
        },
        repeated_of(job_task_do_fields_1(m, base), 98) == repeated_of(base, 98),
{
    lemma_last_field_opt_push(base, m.callback_message.len() > 0, bytes_field(66, utf8_bytes(m.callback_message)));
    lemma_repeated_of_opt_push(base, m.callback_message.len() > 0, bytes_field(66, utf8_bytes(m.callback_message)), 98);
    let fs0 = opt_push(base, m.callback_message.len() > 0, bytes_field(66, utf8_bytes(m.callback_message)));
    lemma_last_field_opt_push(fs0, m.execution_time != 0, varint_field(72, m.execution_time as int));
    lemma_repeated_of_opt_push(fs0, m.execution_time != 0, varint_field(72, m.execution_time as int), 98);
    let fs1 = opt_push(fs0, m.execution_time != 0, varint_field(72, m.execution_time as int));
    lemma_last_field_opt_push(fs1, m.trigger_from.len() > 0, bytes_field(82, utf8_bytes(m.trigger_from)));
    lemma_repeated_of_opt_push(fs1, m.trigger_from.len() > 0, bytes_field(82, utf8_bytes(m.trigger_from)), 98);
    let fs2 = opt_push(fs1, m.trigger_from.len() > 0, bytes_field(82, utf8_bytes(m.trigger_from)));
    lemma_last_field_opt_push(fs2, m.try_times != 0, varint_field(88, m.try_times as int));
    lemma_repeated_of_opt_push(fs2, m.try_times != 0, varint_field(88, m.try_times as int), 98);
    let fs3 = opt_push(fs2, m.try_times != 0, varint_field(88, m.try_times as int));
    lemma_last_field_opt_push(fs3, m.retry_interval != 0, varint_field(104, m.retry_interval as int));
    lemma_repeated_of_opt_push(fs3, m.retry_interval != 0, varint_field(104, m.retry_interval as int), 98);
    let fs4 = opt_push(fs3, m.retry_interval != 0, varint_field(104, m.retry_interval as int));
    lemma_last_field_opt_push(fs4, m.retry_count != 0, varint_field(112, m.retry_count as int));
    lemma_repeated_of_opt_push(fs4, m.retry_count != 0, varint_field(112, m.retry_count as int), 98);
    let fs5 = opt_push(fs4, m.retry_count != 0, varint_field(112, m.retry_count as int));
    assert(fs5 == job_task_do_fields_1(m, base));
}

/// Reading one more entry of `try_logs`: the entries read so far, with it, are those of the
/// fields read so far with its field.
proof fn lemma_job_task_do_part_read(done: Seq<WireField>, wf: WireField, parts: Seq<TaskTryLogDoView>, part: TaskTryLogDoView)
    requires
        parts == job_task_do_parts(done),
        job_task_do_parts_valid(done),
        wf.tag == 98,
        task_try_log_do_of(wf.bytes) == Some(part),
    ensures
        parts.push(part) == job_task_do_parts(done.push(wf)),
        job_task_do_parts_valid(done.push(wf)),
{
    assert(done.push(wf).drop_last() == done);
    let r = repeated_of(done.push(wf), 98);
    assert(r == repeated_of(done, 98).push(wf.bytes));
    assert(parts.push(part) =~= job_task_do_parts(done.push(wf)));
    assert forall|i: int| 0 <= i < r.len() implies (#[trigger] task_try_log_do_of(r[i])) is Some by {
        if i < r.len() - 1 {
            assert(r[i] == repeated_of(done, 98)[i]);
        }
    }
}

/// An entry of `try_logs` that cannot be read spoils the whole message.
proof fn lemma_job_task_do_part_unreadable(
    whole: Option<Seq<WireField>>,
    done: Seq<WireField>,
    wf: WireField,
    rest: Option<Seq<WireField>>,
)
    requires
        whole == match rest {
            Some(r) => Some(done.push(wf) + r),
            None => None::<Seq<WireField>>,
        },
        wf.tag == 98,
        task_try_log_do_of(wf.bytes) is None,
    ensures
        !(whole matches Some(w) && job_task_do_parts_valid(w)),
{
    if let Some(r) = rest {
        let w = done.push(wf) + r;
        lemma_repeated_of_concat(done.push(wf), r, 98);
        assert(done.push(wf).drop_last() == done);
        let k = repeated_of(done, 98).len() as int;
        assert(repeated_of(w, 98)[k] == wf.bytes);
        assert(task_try_log_do_of(repeated_of(w, 98)[k]) is None);
    }
}

impl JobTaskDo {
    /// Appends fields 1 to 7 where they differ from their default.
    fn put_fields_0(&self, out: &mut Vec<u8>, Ghost(base): Ghost<Seq<WireField>>)
        requires
            old(out)@ == fields_bytes(base),
        ensures
            final(out)@ == fields_bytes(job_task_do_fields_0(self@, base)),
    {
        let ghost fs0 = base;
        put_varint(out, Ghost(fs0), self.task_id != 0, 8, self.task_id as u64);
        let ghost fs1 = opt_push(fs0, self.task_id != 0, varint_field(8, self.task_id as int));
        put_varint(out, Ghost(fs1), self.job_id != 0, 16, self.job_id as u64);
        let ghost fs2 = opt_push(fs1, self.job_id != 0, varint_field(16, self.job_id as int));
        put_varint(out, Ghost(fs2), self.trigger_time != 0, 24, self.trigger_time as u64);
        let ghost fs3 = opt_push(fs2, self.trigger_time != 0, varint_field(24, self.trigger_time as int));
        put_text(out, Ghost(fs3), 34, &self.instance_addr);
        let ghost fs4 = opt_push(fs3, self.instance_addr@.len() > 0, bytes_field(34, utf8_bytes(self.instance_addr@)));
        put_text(out, Ghost(fs4), 42, &self.trigger_message);
        let ghost fs5 = opt_push(fs4, self.trigger_message@.len() > 0, bytes_field(42, utf8_bytes(self.trigger_message@)));
        put_text(out, Ghost(fs5), 50, &self.status);
        let ghost fs6 = opt_push(fs5, self.status@.len() > 0, bytes_field(50, utf8_bytes(self.status@)));
        put_varint(out, Ghost(fs6), self.finish_time != 0, 56, self.finish_time as u64);
        let ghost fs7 = opt_push(fs6, self.finish_time != 0, varint_field(56, self.finish_time as int));
        proof {
            assert(fs7 == job_task_do_fields_0(self@, base));
        }
    }

    /// Appends fields 8 to 13 where they differ from their default.
    fn put_fields_1(&self, out: &mut Vec<u8>, Ghost(base): Ghost<Seq<WireField>>)
        requires
            old(out)@ == fields_bytes(base),
        ensures
            final(out)@ == fields_bytes(job_task_do_fields_1(self@, base)),
    {
        let ghost fs0 = base;
        put_text(out, Ghost(fs0), 66, &self.callback_message);
        let ghost fs1 = opt_push(fs0, self.callback_message@.len() > 0, bytes_field(66, utf8_bytes(self.callback_message@)));
        put_varint(out, Ghost(fs1), self.execution_time != 0, 72, self.execution_time as u64);
        let ghost fs2 = opt_push(fs1, self.execution_time != 0, varint_field(72, self.execution_time as int));
        put_text(out, Ghost(fs2), 82, &self.trigger_from);
        let ghost fs3 = opt_push(fs2, self.trigger_from@.len() > 0, bytes_field(82, utf8_bytes(self.trigger_from@)));
        put_varint(out, Ghost(fs3), self.try_times != 0, 88, self.try_times as u64);
        let ghost fs4 = opt_push(fs3, self.try_times != 0, varint_field(88, self.try_times as int));
        put_varint(out, Ghost(fs4), self.retry_interval != 0, 104, self.retry_interval as u64);
        let ghost fs5 = opt_push(fs4, self.retry_interval != 0, varint_field(104, self.retry_interval as int));
        put_varint(out, Ghost(fs5), self.retry_count != 0, 112, self.retry_count as u64);
        let ghost fs6 = opt_push(fs5, self.retry_count != 0, varint_field(112, self.retry_count as int));
        proof {
            assert(fs6 == job_task_do_fields_1(self@, base));
        }
    }

    /// The message's bytes: its non-default fields in tag order.
    pub fn to_bytes(&self) -> (r: Vec<u8>)
        ensures
            r@ == fields_bytes(job_task_do_fields(self@)),
    {
        let mut out: Vec<u8> = Vec::new();
        let ghost b0 = Seq::<WireField>::empty();
        proof {
            reveal(fields_bytes);
            assert(out@ =~= fields_bytes(b0));
        }
        self.put_fields_0(&mut out, Ghost(b0));
        let ghost b1 = job_task_do_fields_0(self@, b0);
        self.put_fields_1(&mut out, Ghost(b1));
        let ghost b2 = job_task_do_fields_1(self@, b1);
        let ghost items = job_task_do_try_logs_items(self@);
        let mut i: usize = 0;
        proof {
            assert(items.take(0) =~= Seq::<Seq<u8>>::empty());
        }
        while i < self.try_logs.len()
            invariant
                i <= self.try_logs@.len(),
                items == job_task_do_try_logs_items(self@),
                out@ == fields_bytes(repeated_fields(b2, 98, items.take(i as int))),
            decreases self.try_logs.len() - i,
        {
            let part = self.try_logs[i].to_bytes();
            push_bytes_field(&mut out, 98, part.as_slice());
            proof {
                reveal(fields_bytes);
                let t = items.take(i + 1);
                assert(t.drop_last() =~= items.take(i as int));
                assert(t.last() == part@);
                assert(repeated_fields(b2, 98, t) == repeated_fields(b2, 98, items.take(i as int)).push(bytes_field(98, part@)));
                assert(repeated_fields(b2, 98, t).drop_last() == repeated_fields(b2, 98, items.take(i as int)));
            }
            i = i + 1;
        }
        proof {
            assert(items.take(i as int) =~= items);
        }
        out
    }

    /// Reads a message: for each known field the last value with its tag; other
    /// fields are skipped. None where a field cannot be read or a text is not UTF-8.
    pub fn from_bytes(b: &Vec<u8>) -> (r: Option<JobTaskDo>)
        ensures
            match job_task_do_of(b@) {
                Some(v) => r matches Some(m) && m@ == v,
                None => r is None,
            },
    {
        let mut m = JobTaskDo {
            task_id: 0,
            job_id: 0,
            trigger_time: 0,
            instance_addr: String::new(),
            trigger_message: String::new(),
            status: String::new(),
            finish_time: 0,
            callback_message: String::new(),
            execution_time: 0,
            trigger_from: String::new(),
            try_times: 0,
            retry_interval: 0,
            retry_count: 0,
            try_logs: Vec::new(),
        };
        let ghost mut done: Seq<WireField> = Seq::empty();
        let mut pos: usize = 0;
        proof {
            assert(task_try_log_do_views(m.try_logs@) =~= job_task_do_parts(Seq::<WireField>::empty()));
            assert(b@.skip(0) =~= b@);
            if let Some(w) = wire_fields(b@) {
                assert(done + w =~= w);
            }
        }
        while pos < b.len()
            invariant
                pos <= b@.len(),
                wire_fields(b@) == match wire_fields(b@.skip(pos as int)) {
                    Some(rest) => Some(done + rest),
                    None => None::<Seq<WireField>>,
                },
                texts_valid(done, job_task_do_text_tags()),
                job_task_do_parts_valid(done),
                m@ == job_task_do_of_fields(done),
            decreases b.len() - pos,
        {
            let f = match read_field(b, pos) {
                Some(f) => f,
                None => {
                    return None;
                },
            };
            let ghost s = b@.skip(pos as int);
            let ghost wf = next_field(s).unwrap().0;
            proof {
                assert(s.skip(next_field(s).unwrap().1) =~= b@.skip(f.next as int));
                lemma_fields_advance(wire_fields(b@), done, s, b@.skip(f.next as int));
                lemma_last_field_opt_push(done, true, wf);
                reveal(opt_push);
                assert(done.push(wf).drop_last() == done);
                assert(repeated_of(done.push(wf), 98) == if wf.tag == 98 {
                    repeated_of(done, 98).push(wf.bytes)
                } else {
                    repeated_of(done, 98)
                });
            }
            match f.tag {
                8 => {
                    m.task_id = f.varint;
                },
                16 => {
                    m.job_id = f.varint;
                },
                24 => {
                    m.trigger_time = #[verifier::truncate] (f.varint as u32);
                },
                34 => {
                    match text_at(b, &f) {
                        Some(t) => {
                            m.instance_addr = t;
                        },
                        None => {
                            proof {
                                lemma_text_field_invalid(
                                    wire_fields(b@),
                                    done,
                                    wf,
                                    wire_fields(b@.skip(f.next as int)),
                                    job_task_do_text_tags(),
                                );
                            }
                            return None;
                        },
                    }
                },
                42 => {
                    match text_at(b, &f) {
                        Some(t) => {
                            m.trigger_message = t;
                        },
                        None => {
                            proof {
                                lemma_text_field_invalid(
                                    wire_fields(b@),
                                    done,
                                    wf,
                                    wire_fields(b@.skip(f.next as int)),
                                    job_task_do_text_tags(),
                                );
                            }
                            return None;
                        },
                    }
                },
                50 => {
                    match text_at(b, &f) {
                        Some(t) => {
                            m.status = t;
                        },
                        None => {
                            proof {
                                lemma_text_field_invalid(
                                    wire_fields(b@),
                                    done,
                                    wf,
                                    wire_fields(b@.skip(f.next as int)),
                                    job_task_do_text_tags(),
                                );
                            }
                            return None;
                        },
                    }
                },
                56 => {
                    m.finish_time = #[verifier::truncate] (f.varint as u32);
                },
                66 => {
                    match text_at(b, &f) {
                        Some(t) => {
                            m.callback_message = t;
                        },
                        None => {
                            proof {
                                lemma_text_field_invalid(
                                    wire_fields(b@),
                                    done,
                                    wf,
                                    wire_fields(b@.skip(f.next as int)),
                                    job_task_do_text_tags(),
                                );
                            }
                            return None;
                        },
                    }
                },
                72 => {
                    m.execution_time = #[verifier::truncate] (f.varint as u32);
                },
                82 => {
                    match text_at(b, &f) {
                        Some(t) => {
                            m.trigger_from = t;
                        },
                        None => {
                            proof {
                                lemma_text_field_invalid(
                                    wire_fields(b@),
                                    done,
                                    wf,
                                    wire_fields(b@.skip(f.next as int)),
                                    job_task_do_text_tags(),
                                );
                            }
                            return None;
                        },
                    }
                },
                88 => {
                    m.try_times = #[verifier::truncate] (f.varint as u32);
                },
                104 => {
                    m.retry_interval = #[verifier::truncate] (f.varint as u32);
                },
                112 => {
                    m.retry_count = #[verifier::truncate] (f.varint as u32);
                },
                98 => {
                    match TaskTryLogDo::from_bytes(&bytes_at(b, f.start, f.end)) {
                        Some(part) => {
                            let ghost prev = m.try_logs@;
                            proof {
                                lemma_job_task_do_part_read(done, wf, task_try_log_do_views(prev), part@);
                            }
                            m.try_logs.push(part);
                            proof {
                                assert(task_try_log_do_views(m.try_logs@) =~= task_try_log_do_views(prev).push(part@));
                            }
                        },
                        None => {
                            proof {
                                lemma_job_task_do_part_unreadable(
                                    wire_fields(b@),
                                    done,
                                    wf,
                                    wire_fields(b@.skip(f.next as int)),
                                );
                            }
                            return None;
                        },
                    }
                },
                _ => {},
            }
            proof {
                done = done.push(wf);
            }
            pos = f.next;
        }
        proof {
            assert(b@.skip(pos as int) =~= Seq::<u8>::empty());
            assert(done + Seq::<WireField>::empty() =~= done);
        }
        Some(m)
    }

    /// Reads a message framed as a record (its length first).
    pub fn read_message(b: &Vec<u8>) -> (r: Option<JobTaskDo>)
        ensures
            match unframed(b@) {
                Some(msg) => match job_task_do_of(msg) {
                    Some(v) => r matches Some(m) && m@ == v,
                    None => r is None,
                },
                None => r is None,
            },
    {
        match unframe(b) {
            Some((start, end)) => JobTaskDo::from_bytes(&bytes_at(b, start, end)),
            None => None,
        }
    }

    /// The message framed as a record: its length, then its bytes.
    pub fn write_message(&self) -> (r: Vec<u8>)
        ensures
            r@ == framed(fields_bytes(job_task_do_fields(self@))),
    {
        frame(&self.to_bytes())
    }
}

/// Reading back what a `JobTaskDo` is written as gives it back.
pub proof fn lemma_job_task_do_round_trip(m: JobTaskDoView)
    requires
        utf8_bytes(m.instance_addr).len() < two64(),
        utf8_bytes(m.trigger_message).len() < two64(),
        utf8_bytes(m.status).len() < two64(),
        utf8_bytes(m.callback_message).len() < two64(),
        utf8_bytes(m.trigger_from).len() < two64(),
        forall|i: int| 0 <= i < m.try_logs.len() ==> utf8_bytes(#[trigger] m.try_logs[i].addr).len() < two64(),
        forall|i: int| 0 <= i < m.try_logs.len() ==> fields_bytes(task_try_log_do_fields(#[trigger] m.try_logs[i])).len() < two64(),
    ensures
        job_task_do_of(fields_bytes(job_task_do_fields(m))) == Some(m),
{
    lemma_utf8_bytes(m.instance_addr);
    lemma_utf8_bytes(m.trigger_message);
    lemma_utf8_bytes(m.status);
    lemma_utf8_bytes(m.callback_message);
    lemma_utf8_bytes(m.trigger_from);
    let b0 = Seq::<WireField>::empty();
    lemma_job_task_do_fields_0_writable(m, b0);
    lemma_job_task_do_fields_0_read(m, b0);
    let b1 = job_task_do_fields_0(m, b0);
    lemma_job_task_do_fields_1_writable(m, b1);
    lemma_job_task_do_fields_1_read(m, b1);
    let b2 = job_task_do_fields_1(m, b1);
    let items = job_task_do_try_logs_items(m);
    assert forall|i: int| 0 <= i < items.len() implies #[trigger] items[i].len() < two64() by {
        assert(items[i] == fields_bytes(task_try_log_do_fields(m.try_logs[i])));
    }
    lemma_repeated_fields(b2, 98, items, job_task_do_text_tags());
    let fs = repeated_fields(b2, 98, items);
    assert(fs == job_task_do_fields(m));
    lemma_fields_round_trip(fs);
    assert(repeated_of(fs, 98) =~= items);
    assert forall|i: int| 0 <= i < items.len() implies task_try_log_do_of(items[i]) == Some(m.try_logs[i]) by {
        assert(items[i] == fields_bytes(task_try_log_do_fields(m.try_logs[i])));
        assert(utf8_bytes(m.try_logs[i].addr).len() < two64());
        lemma_task_try_log_do_round_trip(m.try_logs[i]);
    }
    assert(job_task_do_parts_valid(fs));
    assert(job_task_do_of_fields(fs).try_logs =~= m.try_logs);
    assert(job_task_do_of_fields(fs).task_id == m.task_id);
    assert(job_task_do_of_fields(fs).job_id == m.job_id);
    assert(job_task_do_of_fields(fs).trigger_time == m.trigger_time);
    assert(job_task_do_of_fields(fs).instance_addr == m.instance_addr);
    assert(job_task_do_of_fields(fs).trigger_message == m.trigger_message);
    assert(job_task_do_of_fields(fs).status == m.status);
    assert(job_task_do_of_fields(fs).finish_time == m.finish_time);
    assert(job_task_do_of_fields(fs).callback_message == m.callback_message);
    assert(job_task_do_of_fields(fs).execution_time == m.execution_time);
    assert(job_task_do_of_fields(fs).trigger_from == m.trigger_from);
    assert(job_task_do_of_fields(fs).try_times == m.try_times);
    assert(job_task_do_of_fields(fs).retry_interval == m.retry_interval);
    assert(job_task_do_of_fields(fs).retry_count == m.retry_count);
}

} // verus!
