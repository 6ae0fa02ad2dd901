//! The names of the service's metrics, their descriptions, and how rt
//! histograms and summaries pair up.
use crate::text::str_eq;
use vstd::prelude::*;

verus! {

/// A metric label: name and value.
#[derive(Debug, Clone, PartialEq, Eq, Hash)]
pub struct Label(pub String, pub String);

/// The metrics the service keeps.
#[derive(PartialEq, Eq, Structural, Clone, Copy, Debug, Hash)]
pub enum MetricsKey {
    ProcessStartTimeSeconds,
    SysTotalMemory,
    AppRssMemory,
    AppVmsMemory,
    AppMemoryUsage,
    AppCpuUsage,
    JobAppSize,
    JobAppInstanceSize,
    JobSize,
    JobEnableSize,
    TaskTriggerSize,
    TaskRedoSize,
    TaskSuccessSize,
    TaskFailSize,
    TaskRunningSize,
    TaskCallApiSize,
    TaskFinishRtHistogram,
    TaskFinishRtSummary,
    TaskFinishTotalCount,
    HttpRequestHandleRtHistogram,
    HttpRequestHandleRtSummary,
    HttpRequestTotalCount,
}

/// The name each metric is exported under.
pub open spec fn metrics_key_name(k: MetricsKey) -> Seq<char> {
    match k {
        MetricsKey::ProcessStartTimeSeconds => "process_start_time_seconds"@,
        MetricsKey::SysTotalMemory => "sys_total_memory"@,
        MetricsKey::AppRssMemory => "app_rss_memory"@,
        MetricsKey::AppVmsMemory => "app_vms_memory"@,
        MetricsKey::AppMemoryUsage => "app_memory_usage"@,
        MetricsKey::AppCpuUsage => "app_cpu_usage"@,
        MetricsKey::JobAppSize => "job_app_size"@,
        MetricsKey::JobAppInstanceSize => "job_app_instance_size"@,
        MetricsKey::JobSize => "job_size"@,
        MetricsKey::JobEnableSize => "job_enable_size"@,
        MetricsKey::TaskTriggerSize => "task_trigger_size"@,
        MetricsKey::TaskRedoSize => "task_redo_size"@,
        MetricsKey::TaskSuccessSize => "task_success_size"@,
        MetricsKey::TaskFailSize => "task_fail_size"@,
        MetricsKey::TaskRunningSize => "task_running_size"@,
        MetricsKey::TaskCallApiSize => "task_call_api_size"@,
        MetricsKey::TaskFinishRtHistogram => "task_finish_rt_histogram"@,
        MetricsKey::TaskFinishRtSummary => "task_finish_rt_summary"@,
        MetricsKey::TaskFinishTotalCount => "task_finish_total_count"@,
        MetricsKey::HttpRequestHandleRtHistogram => "http_request_handle_rt_histogram"@,
        MetricsKey::HttpRequestHandleRtSummary => "http_request_handle_rt_summary"@,
        MetricsKey::HttpRequestTotalCount => "http_request_total_count"@,
    }
}

/// The description each metric is exported with.
pub open spec fn metrics_key_describe(k: MetricsKey) -> Seq<char> {
    match k {
        MetricsKey::ProcessStartTimeSeconds => "Process start time seconds"@,
        MetricsKey::SysTotalMemory => "Sys total memory,unit is M"@,
        MetricsKey::AppRssMemory => "App rss memory,unit is M"@,
        MetricsKey::AppVmsMemory => "App vms memory,unit is M"@,
        MetricsKey::AppMemoryUsage => "App memory usage"@,
        MetricsKey::AppCpuUsage => "App cpu usage"@,
        MetricsKey::JobAppSize => "Job app size"@,
        MetricsKey::JobAppInstanceSize => "Job app instance size"@,
        MetricsKey::JobSize => "Job size"@,
        MetricsKey::JobEnableSize => "Job enable size"@,
        MetricsKey::TaskTriggerSize => "Task trigger size"@,
        MetricsKey::TaskRedoSize => "Task redo size"@,
        MetricsKey::TaskSuccessSize => "Task success size"@,
        MetricsKey::TaskFailSize => "Task fail size"@,
        MetricsKey::TaskRunningSize => "Task running size"@,
        MetricsKey::TaskCallApiSize => "Task call api size"@,
        MetricsKey::TaskFinishRtHistogram => "Task finish rt histogram,unit is ms"@,
        MetricsKey::TaskFinishRtSummary => "Task finish rt summary,unit is ms"@,
        MetricsKey::TaskFinishTotalCount => "Task finish total count"@,
        MetricsKey::HttpRequestHandleRtHistogram => "Http request handle rt histogram,unit is ms"@,
        MetricsKey::HttpRequestHandleRtSummary => "Http request handle rt summary,unit is ms"@,
        MetricsKey::HttpRequestTotalCount => "Http request total count"@,
    }
}

/// The metrics in the order they are listed in, which is also the set that can
/// be looked up by name: all but the process start time and the running tasks.
pub open spec fn ordered_keys() -> Seq<MetricsKey> {
    seq![
        MetricsKey::SysTotalMemory,
        MetricsKey::AppRssMemory,
        MetricsKey::AppVmsMemory,
        MetricsKey::AppMemoryUsage,
        MetricsKey::AppCpuUsage,
        MetricsKey::JobAppSize,
        MetricsKey::JobAppInstanceSize,
        MetricsKey::JobSize,
        MetricsKey::JobEnableSize,
        MetricsKey::TaskTriggerSize,
        MetricsKey::TaskRedoSize,
        MetricsKey::TaskSuccessSize,
        MetricsKey::TaskFailSize,
        MetricsKey::TaskCallApiSize,
        MetricsKey::TaskFinishRtHistogram,
        MetricsKey::TaskFinishRtSummary,
        MetricsKey::TaskFinishTotalCount,
        MetricsKey::HttpRequestHandleRtHistogram,
        MetricsKey::HttpRequestHandleRtSummary,
        MetricsKey::HttpRequestTotalCount,
    ]
}

/// The rt histogram of a summary and the summary of a histogram; none for other metrics.
pub open spec fn rt_counterpart(k: MetricsKey) -> Option<MetricsKey> {
    match k {
        MetricsKey::HttpRequestHandleRtHistogram => Some(MetricsKey::HttpRequestHandleRtSummary),
        MetricsKey::HttpRequestHandleRtSummary => Some(MetricsKey::HttpRequestHandleRtHistogram),
        MetricsKey::TaskFinishRtHistogram => Some(MetricsKey::TaskFinishRtSummary),
        MetricsKey::TaskFinishRtSummary => Some(MetricsKey::TaskFinishRtHistogram),
        _ => None,
    }
}

/// The listed metric with this name, if any.
pub open spec fn key_of_name(s: Seq<char>) -> Option<MetricsKey> {
    if exists|i: int| 0 <= i < ordered_keys().len() && metrics_key_name(#[trigger] ordered_keys()[i]) == s {
        Some(ordered_keys()[choose|i: int| 0 <= i < ordered_keys().len() && metrics_key_name(#[trigger] ordered_keys()[i]) == s])
    } else {
        None
    }
}

impl MetricsKey {
    /// The name the metric is exported under.
    pub fn get_key(&self) -> (r: &'static str)
        ensures
            r@ == metrics_key_name(*self),
    {
        match self {
            MetricsKey::ProcessStartTimeSeconds => "process_start_time_seconds",
            MetricsKey::SysTotalMemory => "sys_total_memory",
            MetricsKey::AppRssMemory => "app_rss_memory",
            MetricsKey::AppVmsMemory => "app_vms_memory",
            MetricsKey::AppMemoryUsage => "app_memory_usage",
            MetricsKey::AppCpuUsage => "app_cpu_usage",
            MetricsKey::JobAppSize => "job_app_size",
            MetricsKey::JobAppInstanceSize => "job_app_instance_size",
            MetricsKey::JobSize => "job_size",
            MetricsKey::JobEnableSize => "job_enable_size",
            MetricsKey::TaskTriggerSize => "task_trigger_size",
            MetricsKey::TaskRedoSize => "task_redo_size",
            MetricsKey::TaskSuccessSize => "task_success_size",
            MetricsKey::TaskFailSize => "task_fail_size",
            MetricsKey::TaskRunningSize => "task_running_size",
            MetricsKey::TaskCallApiSize => "task_call_api_size",
            MetricsKey::TaskFinishRtHistogram => "task_finish_rt_histogram",
            MetricsKey::TaskFinishRtSummary => "task_finish_rt_summary",
            MetricsKey::TaskFinishTotalCount => "task_finish_total_count",
            MetricsKey::HttpRequestHandleRtHistogram => "http_request_handle_rt_histogram",
            MetricsKey::HttpRequestHandleRtSummary => "http_request_handle_rt_summary",
            MetricsKey::HttpRequestTotalCount => "http_request_total_count",
        }
    }

    /// The metric's labels; no metric has any yet.
    pub fn get_labels(&self) -> (r: Option<Vec<Label>>)
        ensures
            r is None,
    {
        None
    }

    /// The name with its labels; as no metric has labels, the name.
    pub fn get_key_with_label(&self) -> (r: String)
        ensures
            r@ == metrics_key_name(*self),
    {
        self.get_key().to_owned()
    }

    /// The description the metric is exported with.
    pub fn get_describe(&self) -> (r: &'static str)
        ensures
            r@ == metrics_key_describe(*self),
    {
        match self {
            MetricsKey::ProcessStartTimeSeconds => "Process start time seconds",
            MetricsKey::SysTotalMemory => "Sys total memory,unit is M",
            MetricsKey::AppRssMemory => "App rss memory,unit is M",
            MetricsKey::AppVmsMemory => "App vms memory,unit is M",
            MetricsKey::AppMemoryUsage => "App memory usage",
            MetricsKey::AppCpuUsage => "App cpu usage",
            MetricsKey::JobAppSize => "Job app size",
            MetricsKey::JobAppInstanceSize => "Job app instance size",
            MetricsKey::JobSize => "Job size",
            MetricsKey::JobEnableSize => "Job enable size",
            MetricsKey::TaskTriggerSize => "Task trigger size",
            MetricsKey::TaskRedoSize => "Task redo size",
            MetricsKey::TaskSuccessSize => "Task success size",
            MetricsKey::TaskFailSize => "Task fail size",
            MetricsKey::TaskRunningSize => "Task running size",
            MetricsKey::TaskCallApiSize => "Task call api size",
            MetricsKey::TaskFinishRtHistogram => "Task finish rt histogram,unit is ms",
            MetricsKey::TaskFinishRtSummary => "Task finish rt summary,unit is ms",
            MetricsKey::TaskFinishTotalCount => "Task finish total count",
            MetricsKey::HttpRequestHandleRtHistogram => "Http request handle rt histogram,unit is ms",
            MetricsKey::HttpRequestHandleRtSummary => "Http request handle rt summary,unit is ms",
            MetricsKey::HttpRequestTotalCount => "Http request total count",
        }
    }

    /// The listed metrics, in order.
    pub fn order_all_keys() -> (r: Vec<MetricsKey>)
        ensures
            r@ == ordered_keys(),
    {
        let r = vec![
            MetricsKey::SysTotalMemory,
            MetricsKey::AppRssMemory,
            MetricsKey::AppVmsMemory,
            MetricsKey::AppMemoryUsage,
            MetricsKey::AppCpuUsage,
            MetricsKey::JobAppSize,
            MetricsKey::JobAppInstanceSize,
            MetricsKey::JobSize,
            MetricsKey::JobEnableSize,
            MetricsKey::TaskTriggerSize,
            MetricsKey::TaskRedoSize,
            MetricsKey::TaskSuccessSize,
            MetricsKey::TaskFailSize,
            MetricsKey::TaskCallApiSize,
            MetricsKey::TaskFinishRtHistogram,
            MetricsKey::TaskFinishRtSummary,
            MetricsKey::TaskFinishTotalCount,
            MetricsKey::HttpRequestHandleRtHistogram,
            MetricsKey::HttpRequestHandleRtSummary,
            MetricsKey::HttpRequestTotalCount,
        ];
        assert(r@ =~= ordered_keys());
        r
    }

    /// The listed metric exported under `key`, if any.
    pub fn of_key(key: &str) -> (r: Option<MetricsKey>)
        ensures
            r is Some <==> exists|i: int|
                0 <= i < ordered_keys().len() && metrics_key_name(#[trigger] ordered_keys()[i]) == key@,
            r is Some ==> metrics_key_name(r->0) == key@ && ordered_keys().contains(r->0),
            forall|k: MetricsKey|
                #[trigger] ordered_keys().contains(k) ==> (r == Some(k) <==> key@ == metrics_key_name(k)),
    {
        let keys = MetricsKey::order_all_keys();
        let mut i: usize = 0;
        while i < keys.len()
            invariant
                keys@ == ordered_keys(),
                i <= keys.len(),
                forall|j: int| 0 <= j < i ==> metrics_key_name(#[trigger] ordered_keys()[j]) != key@,
            decreases keys.len() - i,
        {
            if str_eq(keys[i].get_key(), key) {
                proof {
                    assert forall|k: MetricsKey| #[trigger] ordered_keys().contains(k) implies (Some(
                        keys@[i as int],
                    ) == Some(k) <==> key@ == metrics_key_name(k)) by {
                        if key@ == metrics_key_name(k) {
                            lemma_metrics_key_name_injective(k, keys@[i as int]);
                        }
                    }
                }
                return Some(keys[i]);
            }
            i = i + 1;
        }
        None
    }

    /// The rt histogram paired with a summary (and, by the same pairing, the
    /// summary paired with a histogram).
    pub fn get_histogram_from_summary(key: &MetricsKey) -> (r: Option<MetricsKey>)
        ensures
            r == rt_counterpart(*key),
    {
        rt_pair(key)
    }

    /// The rt summary paired with a histogram (and, by the same pairing, the
    /// histogram paired with a summary).
    pub fn get_summary_from_histogram(key: &MetricsKey) -> (r: Option<MetricsKey>)
        ensures
            r == rt_counterpart(*key),
    {
        rt_pair(key)
    }
}

/// The rt metric paired with `key`.
fn rt_pair(key: &MetricsKey) -> (r: Option<MetricsKey>)
    ensures
        r == rt_counterpart(*key),
{
    match key {
        MetricsKey::HttpRequestHandleRtHistogram => Some(MetricsKey::HttpRequestHandleRtSummary),
        MetricsKey::HttpRequestHandleRtSummary => Some(MetricsKey::HttpRequestHandleRtHistogram),
        MetricsKey::TaskFinishRtHistogram => Some(MetricsKey::TaskFinishRtSummary),
        MetricsKey::TaskFinishRtSummary => Some(MetricsKey::TaskFinishRtHistogram),
        _ => None,
    }
}

/// The length of a name and its sixth character, which tell the metric names apart.
spec fn name_signature(s: Seq<char>) -> (nat, char) {
    (s.len(), s[5])
}

/// No two metrics share a name.
pub proof fn lemma_metrics_key_name_injective(a: MetricsKey, b: MetricsKey)
    requires
        metrics_key_name(a) == metrics_key_name(b),
    ensures
        a == b,
{
    reveal_strlit("process_start_time_seconds");
    reveal_strlit("sys_total_memory");
    reveal_strlit("app_rss_memory");
    reveal_strlit("app_vms_memory");
    reveal_strlit("app_memory_usage");
    reveal_strlit("app_cpu_usage");
    reveal_strlit("job_app_size");
    reveal_strlit("job_app_instance_size");
    reveal_strlit("job_size");
    reveal_strlit("job_enable_size");
    reveal_strlit("task_trigger_size");
    reveal_strlit("task_redo_size");
    reveal_strlit("task_success_size");
    reveal_strlit("task_fail_size");
    reveal_strlit("task_running_size");
    reveal_strlit("task_call_api_size");
    reveal_strlit("task_finish_rt_histogram");
    reveal_strlit("task_finish_rt_summary");
    reveal_strlit("task_finish_total_count");
    reveal_strlit("http_request_handle_rt_histogram");
    reveal_strlit("http_request_handle_rt_summary");
    reveal_strlit("http_request_total_count");
    assert(name_signature(metrics_key_name(a)) == name_signature(metrics_key_name(b)));
}

/// Pairing rt histograms with summaries undoes itself: a metric's counterpart's
/// counterpart is the metric.
pub proof fn lemma_rt_counterpart_involution(k: MetricsKey)
    ensures
        rt_counterpart(k) matches Some(c) ==> rt_counterpart(c) == Some(k),
{
}

} // verus!
