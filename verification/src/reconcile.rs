//! From the readings to take to the samples of a measurement: grouping the
//! readings by page, reading a page's values, and holding a fresh set of
//! samples against the previous one.

use vstd::prelude::*;
use vstd::string::*;
use crate::error::{Error, ErrorView};
use crate::model::{ConfigSample, EntityType, MetricType, Number, Sample, SampleType};
use crate::page::{extract, get_item_from_response, Reading, ReadingView};

verus! {

/// The readings to take from one page.
#[derive(Debug)]
pub struct PageGroup {
    /// The path of the page.
    pub navigation: String,
    /// The readings, in the order in which they were asked for.
    pub sample_configs: Vec<ConfigSample>,
}

/// A sample whose value is still as the device wrote it. Its number is the
/// reading, zero for a missing one, times the multiplier.
#[derive(Debug)]
pub struct RawSample {
    pub entity_type: EntityType,
    pub entity_name: String,
    pub sample_type: SampleType,
    pub sample_name: String,
    pub metric_type: MetricType,
    pub reading: Reading,
    pub value_multiplier: Number,
}

impl RawSample {
    /// The sample with the number that was computed for it.
    pub fn into_sample(self, value: Number) -> (sample: Sample)
        ensures
            sample.entity_type == self.entity_type,
            sample.entity_name == self.entity_name,
            sample.sample_type == self.sample_type,
            sample.sample_name == self.sample_name,
            sample.metric_type == self.metric_type,
            sample.value == value,
    {
        Sample {
            entity_type: self.entity_type,
            entity_name: self.entity_name,
            sample_type: self.sample_type,
            sample_name: self.sample_name,
            metric_type: self.metric_type,
            value,
        }
    }
}

/// The paths of the pages that `requests` name, each once, in the order in
/// which they first occur.
pub open spec fn pages_of(requests: Seq<ConfigSample>) -> Seq<Seq<char>>
    decreases requests.len(),
{
    if requests.len() == 0 {
        Seq::empty()
    } else {
        let before = pages_of(requests.drop_last());
        let page = requests.last().navigation@;
        if before.contains(page) {
            before
        } else {
            before.push(page)
        }
    }
}

/// Those of `requests` that read from the page at `navigation`, in order.
pub open spec fn requests_for(requests: Seq<ConfigSample>, navigation: Seq<char>) -> Seq<
    ConfigSample,
> {
    requests.filter(|request: ConfigSample| request.navigation@ == navigation)
}

/// Every request's page is among the pages, and no page is there twice:
/// each request falls into exactly one group.
pub proof fn lemma_pages_of(requests: Seq<ConfigSample>)
    ensures
        forall|k: int|
            0 <= k < requests.len() ==> pages_of(requests).contains(
                (#[trigger] requests[k]).navigation@,
            ),
        pages_of(requests).no_duplicates(),
    decreases requests.len(),
{
    if requests.len() > 0 {
        let front = requests.drop_last();
        let before = pages_of(front);
        let page = requests.last().navigation@;
        let all = pages_of(requests);
        lemma_pages_of(front);
        assert forall|k: int| 0 <= k < requests.len() implies all.contains(
            (#[trigger] requests[k]).navigation@,
        ) by {
            if k < front.len() {
                assert(front[k] == requests[k]);
                let g = choose|g: int| 0 <= g < before.len() && before[g] == front[k].navigation@;
                assert(all[g] == before[g]);
            } else if before.contains(page) {
            } else {
                assert(all[before.len() as int] == page);
            }
        }
    }
}

/// A request for another page changes nothing in a page's requests; one
/// for the page itself comes last among them.
proof fn lemma_requests_for_step(requests: Seq<ConfigSample>, navigation: Seq<char>)
    requires
        requests.len() > 0,
    ensures
        requests_for(requests, navigation) == if requests.last().navigation@ == navigation {
            requests_for(requests.drop_last(), navigation).push(requests.last())
        } else {
            requests_for(requests.drop_last(), navigation)
        },
{
    reveal(Seq::filter);
}

/// Where no request reads from a page, the page has no requests.
proof fn lemma_requests_for_none(requests: Seq<ConfigSample>, navigation: Seq<char>)
    requires
        forall|k: int|
            0 <= k < requests.len() ==> (#[trigger] requests[k]).navigation@ != navigation,
    ensures
        requests_for(requests, navigation) == Seq::<ConfigSample>::empty(),
    decreases requests.len(),
{
    reveal(Seq::filter);
    if requests.len() > 0 {
        let front = requests.drop_last();
        assert forall|k: int| 0 <= k < front.len() implies (#[trigger] front[k]).navigation@
            != navigation by {
            assert(front[k] == requests[k]);
        }
        lemma_requests_for_none(front, navigation);
        assert(requests[requests.len() - 1].navigation@ != navigation);
    }
}

/// `groups` holds `requests` page by page.
pub open spec fn grouped(groups: Seq<PageGroup>, requests: Seq<ConfigSample>) -> bool {
    &&& groups.len() == pages_of(requests).len()
    &&& forall|g: int|
        0 <= g < groups.len() ==> {
            &&& (#[trigger] groups[g]).navigation@ == pages_of(requests)[g]
            &&& groups[g].sample_configs@ == requests_for(requests, pages_of(requests)[g])
        }
}

/// Finds the group for the page at `navigation`.
fn find_group(groups: &Vec<PageGroup>, navigation: &String) -> (found: Option<usize>)
    ensures
        match found {
            Some(g) => g < groups.len() && groups@[g as int].navigation@ == navigation@,
            None => forall|g: int|
                0 <= g < groups.len() ==> (#[trigger] groups@[g]).navigation@ != navigation@,
        },
{
    let mut g: usize = 0;
    while g < groups.len()
        invariant
            g <= groups.len(),
            forall|k: int| 0 <= k < g ==> (#[trigger] groups@[k]).navigation@ != navigation@,
        decreases groups.len() - g,
    {
        if groups[g].navigation == *navigation {
            return Some(g);
        }
        g = g + 1;
    }
    None
}

/// Sorts the readings to take by the page that shows them, so that each
/// page is fetched once.
///
/// There is one group for each page that is named, in the order in which
/// the pages are first named. A group holds all readings of its page, and
/// they keep the order in which they were given.
pub fn group_sample_configs_per_navigation(sample_configs: Vec<ConfigSample>) -> (groups: Vec<
    PageGroup,
>)
    ensures
        grouped(groups@, sample_configs@),
{
    let mut groups: Vec<PageGroup> = Vec::new();
    let mut i: usize = 0;
    assert(sample_configs@.take(0) =~= Seq::<ConfigSample>::empty());
    while i < sample_configs.len()
        invariant
            i <= sample_configs.len(),
            grouped(groups@, sample_configs@.take(i as int)),
        decreases sample_configs.len() - i,
    {
        let request: ConfigSample = sample_configs[i].clone();
        let ghost before = sample_configs@.take(i as int);
        let ghost now = sample_configs@.take(i + 1);
        let ghost old_groups = groups@;
        proof {
            assert(now.drop_last() =~= before);
            assert(now.last() == sample_configs@[i as int]);
            lemma_pages_of(before);
            assert forall|g: int| 0 <= g < pages_of(before).len() implies requests_for(
                now,
                #[trigger] pages_of(before)[g],
            ) == if request.navigation@ == pages_of(before)[g] {
                requests_for(before, pages_of(before)[g]).push(request)
            } else {
                requests_for(before, pages_of(before)[g])
            } by {
                lemma_requests_for_step(now, pages_of(before)[g]);
            }
        }
        match find_group(&groups, &request.navigation) {
            Some(g) => {
                proof {
                    assert(pages_of(before)[g as int] == request.navigation@);
                    assert(pages_of(before).contains(request.navigation@));
                    assert(pages_of(now) == pages_of(before));
                }
                groups[g].sample_configs.push(request);
                proof {
                    assert forall|k: int| 0 <= k < groups@.len() implies {
                        &&& (#[trigger] groups@[k]).navigation@ == pages_of(now)[k]
                        &&& groups@[k].sample_configs@ == requests_for(now, pages_of(now)[k])
                    } by {
                        if k != g {
                            assert(groups@[k] == old_groups[k]);
                            assert(pages_of(before)[k] != pages_of(before)[g as int]);
                        }
                    }
                }
            },
            None => {
                proof {
                    assert(!pages_of(before).contains(request.navigation@)) by {
                        if pages_of(before).contains(request.navigation@) {
                            let g = choose|g: int|
                                0 <= g < pages_of(before).len() && pages_of(before)[g]
                                    == request.navigation@;
                            assert(old_groups[g].navigation@ == request.navigation@);
                        }
                    }
                    assert(pages_of(now) == pages_of(before).push(request.navigation@));
                    assert forall|k: int| 0 <= k < before.len() implies (
                    #[trigger] before[k]).navigation@ != request.navigation@ by {
                        assert(pages_of(before).contains(before[k].navigation@));
                    }
                    lemma_requests_for_none(before, request.navigation@);
                    lemma_requests_for_step(now, request.navigation@);
                }
                let navigation: String = request.navigation.clone();
                let mut members: Vec<ConfigSample> = Vec::new();
                members.push(request);
                assert(members@ =~= Seq::<ConfigSample>::empty().push(request));
                groups.push(PageGroup { navigation, sample_configs: members });
                proof {
                    assert forall|k: int| 0 <= k < groups@.len() implies {
                        &&& (#[trigger] groups@[k]).navigation@ == pages_of(now)[k]
                        &&& groups@[k].sample_configs@ == requests_for(now, pages_of(now)[k])
                    } by {
                        if k < old_groups.len() {
                            assert(groups@[k] == old_groups[k]);
                            assert(pages_of(before)[k] != request.navigation@);
                        }
                    }
                }
            },
        }
        i = i + 1;
    }
    assert(sample_configs@.take(i as int) =~= sample_configs@);
    groups
}

/// `sample` is what `request` asks for, with `reading` as its value.
pub open spec fn answers(sample: RawSample, request: ConfigSample, reading: ReadingView) -> bool {
    &&& sample.entity_type == request.entity_type
    &&& sample.entity_name == request.entity_name
    &&& sample.sample_type == request.sample_type
    &&& sample.sample_name == request.sample_name
    &&& sample.metric_type == request.metric_type
    &&& sample.value_multiplier == request.value_multiplier
    &&& sample.reading@ == reading
}

/// `sample` is what `request` asks for, read from `page`.
pub open spec fn read_from(sample: RawSample, request: ConfigSample, page: Seq<char>) -> bool {
    match extract(request.item@, page) {
        Ok(reading) => answers(sample, request, reading),
        Err(_) => false,
    }
}

/// `samples` are what `requests` ask for, one for one, read from `page`.
pub open spec fn all_read_from(
    samples: Seq<RawSample>,
    requests: Seq<ConfigSample>,
    page: Seq<char>,
) -> bool {
    &&& samples.len() == requests.len()
    &&& forall|i: int|
        0 <= i < samples.len() ==> read_from(#[trigger] samples[i], requests[i], page)
}

/// The request at `k` is the first whose item cannot be read from `page`,
/// and `error` says why.
pub open spec fn first_failure(
    requests: Seq<ConfigSample>,
    page: Seq<char>,
    k: int,
    error: ErrorView,
) -> bool {
    &&& 0 <= k < requests.len()
    &&& extract(requests[k].item@, page) == Err::<ReadingView, ErrorView>(error)
    &&& forall|i: int| 0 <= i < k ==> extract((#[trigger] requests[i]).item@, page) is Ok
}

/// Reads from the page `response_message` the value of every one of
/// `sample_configs`, in their order.
///
/// There is one sample for each request, with the request's names and
/// multiplier and the reading of the request's item. The first request
/// whose item cannot be read ends the whole with that item's error: no
/// part of the samples is handed out.
pub fn get_samples(sample_configs: &Vec<ConfigSample>, response_message: &str) -> (result: Result<
    Vec<RawSample>,
    Error,
>)
    ensures
        match result {
            Ok(samples) => all_read_from(samples@, sample_configs@, response_message@),
            Err(error) => exists|k: int|
                first_failure(sample_configs@, response_message@, k, error@),
        },
{
    let mut samples: Vec<RawSample> = Vec::new();
    let mut i: usize = 0;
    while i < sample_configs.len()
        invariant
            i <= sample_configs.len(),
            all_read_from(samples@, sample_configs@.take(i as int), response_message@),
        decreases sample_configs.len() - i,
    {
        let request = &sample_configs[i];
        let ghost before = samples@;
        match get_item_from_response(request.item.as_str(), response_message) {
            Err(error) => {
                proof {
                    assert forall|k: int| 0 <= k < i implies extract(
                        (#[trigger] sample_configs@[k]).item@,
                        response_message@,
                    ) is Ok by {
                        assert(read_from(
                            before[k],
                            sample_configs@.take(i as int)[k],
                            response_message@,
                        ));
                    }
                    assert(first_failure(sample_configs@, response_message@, i as int, error@));
                }
                return Err(error);
            },
            Ok(reading) => {
                let sample = RawSample {
                    entity_type: request.entity_type,
                    entity_name: request.entity_name.clone(),
                    sample_type: request.sample_type,
                    sample_name: request.sample_name.clone(),
                    metric_type: request.metric_type,
                    reading,
                    value_multiplier: request.value_multiplier,
                };
                assert(read_from(sample, sample_configs@[i as int], response_message@));
                samples.push(sample);
                proof {
                    assert forall|k: int| 0 <= k < samples@.len() implies read_from(
                        #[trigger] samples@[k],
                        sample_configs@.take(i + 1)[k],
                        response_message@,
                    ) by {
                        if k < i {
                            assert(samples@[k] == before[k]);
                            assert(sample_configs@.take(i + 1)[k] == sample_configs@.take(
                                i as int,
                            )[k]);
                        }
                    }
                }
            },
        }
        i = i + 1;
    }
    assert(sample_configs@.take(i as int) =~= sample_configs@);
    Ok(samples)
}

/// Two samples are values of the same series: they agree in entity type,
/// entity name, sample type, sample name and metric type.
pub open spec fn same_series(a: Sample, b: Sample) -> bool {
    &&& a.entity_type == b.entity_type
    &&& a.entity_name@ == b.entity_name@
    &&& a.sample_type == b.sample_type
    &&& a.sample_name@ == b.sample_name@
    &&& a.metric_type == b.metric_type
}

/// `last[j]` is of the series of `current`, and none before it is.
pub open spec fn is_previous_of(current: Sample, last: Seq<Sample>, j: int) -> bool {
    &&& 0 <= j < last.len()
    &&& same_series(current, last[j])
    &&& forall|k: int| 0 <= k < j ==> !same_series(current, #[trigger] last[k])
}

/// The position of the first of `last` that is of the series of `current`.
pub open spec fn previous_of(current: Sample, last: Seq<Sample>) -> Option<int> {
    if exists|j: int| is_previous_of(current, last, j) {
        Some(choose|j: int| is_previous_of(current, last, j))
    } else {
        None
    }
}

/// `out` is what `current` becomes when held against `last`.
///
/// A counter with a previous sample of its series is handed to the test
/// `too_large`, as the pair of the current and the previous value: where
/// the test says yes, `out` is the previous sample, and where it says no,
/// `out` is `current`. Any other sample stays as it is.
pub open spec fn sanitized_as<F: Fn(Number, Number) -> bool>(
    current: Sample,
    last: Seq<Sample>,
    too_large: F,
    out: Sample,
) -> bool {
    match previous_of(current, last) {
        Some(j) => if current.metric_type == MetricType::Counter {
            ||| call_ensures(too_large, (current.value, last[j].value), true) && out == last[j]
            ||| call_ensures(too_large, (current.value, last[j].value), false) && out == current
        } else {
            out == current
        },
        None => out == current,
    }
}

/// The test can be asked about `current`, where it will be: for a counter
/// with a previous sample of its series, about the two values.
pub open spec fn can_be_asked<F: Fn(Number, Number) -> bool>(
    current: Sample,
    last: Seq<Sample>,
    too_large: F,
) -> bool {
    match previous_of(current, last) {
        Some(j) => current.metric_type == MetricType::Counter ==> call_requires(
            too_large,
            (current.value, last[j].value),
        ),
        None => true,
    }
}

/// Finds the first of `last_samples` that is of the series of `current`.
pub fn find_previous(current: &Sample, last_samples: &Vec<Sample>) -> (found: Option<usize>)
    ensures
        match found {
            Some(j) => previous_of(*current, last_samples@) == Some(j as int) && j
                < last_samples.len(),
            None => previous_of(*current, last_samples@) is None,
        },
{
    let mut j: usize = 0;
    while j < last_samples.len()
        invariant
            j <= last_samples.len(),
            forall|k: int| 0 <= k < j ==> !same_series(*current, #[trigger] last_samples@[k]),
        decreases last_samples.len() - j,
    {
        let last = &last_samples[j];
        if current.entity_type == last.entity_type && current.entity_name == last.entity_name
            && current.sample_type == last.sample_type && current.sample_name == last.sample_name
            && current.metric_type == last.metric_type {
            proof {
                assert(is_previous_of(*current, last_samples@, j as int));
                let first = choose|k: int| is_previous_of(*current, last_samples@, k);
                assert(first == j) by {
                    if first < j {
                        assert(!same_series(*current, last_samples@[first]));
                    } else if j < first {
                        assert(!same_series(*current, last_samples@[j as int]));
                    }
                }
            }
            return Some(j);
        }
        j = j + 1;
    }
    proof {
        assert forall|k: int| !is_previous_of(*current, last_samples@, k) by {
            if 0 <= k < last_samples@.len() {
                assert(!same_series(*current, last_samples@[k]));
            }
        }
    }
    None
}

/// Holds the samples of this poll against those of the previous one, and
/// keeps the previous value where a counter has jumped.
///
/// `too_large` is asked of a current and a previous value whether the
/// first is too large to follow the second; the device's rule is that
/// their ratio is above 1.1. It is asked only for a counter, and only
/// about the first previous sample of the same series, so it need not
/// answer for any other pair. Where it says yes, the previous sample takes
/// the current one's place. All other samples stay as they are, and the
/// order is that of `current_samples`.
pub fn sanitize_samples<F: Fn(Number, Number) -> bool>(
    current_samples: Vec<Sample>,
    last_samples: Vec<Sample>,
    too_large: F,
) -> (sanitized_samples: Vec<Sample>)
    requires
        forall|i: int|
            0 <= i < current_samples.len() ==> can_be_asked(
                #[trigger] current_samples@[i],
                last_samples@,
                too_large,
            ),
    ensures
        sanitized_samples.len() == current_samples.len(),
        forall|i: int|
            0 <= i < current_samples.len() ==> sanitized_as(
                current_samples@[i],
                last_samples@,
                too_large,
                #[trigger] sanitized_samples@[i],
            ),
{
    let mut sanitized_samples: Vec<Sample> = Vec::new();
    let mut i: usize = 0;
    while i < current_samples.len()
        invariant
            i <= current_samples.len(),
            sanitized_samples.len() == i,
            forall|k: int|
                0 <= k < current_samples.len() ==> can_be_asked(
                    #[trigger] current_samples@[k],
                    last_samples@,
                    too_large,
                ),
            forall|k: int|
                0 <= k < i ==> sanitized_as(
                    current_samples@[k],
                    last_samples@,
                    too_large,
                    #[trigger] sanitized_samples@[k],
                ),
        decreases current_samples.len() - i,
    {
        let current = &current_samples[i];
        let ghost before = sanitized_samples@;
        assert(can_be_asked(current_samples@[i as int], last_samples@, too_large));
        let replace: Option<usize> = match find_previous(current, &last_samples) {
            Some(j) => {
                if current.metric_type == MetricType::Counter && too_large(
                    current.value,
                    last_samples[j].value,
                ) {
                    Some(j)
                } else {
                    None
                }
            },
            None => None,
        };
        let out: Sample = match replace {
            Some(j) => last_samples[j].clone(),
            None => current.clone(),
        };
        assert(sanitized_as(current_samples@[i as int], last_samples@, too_large, out));
        sanitized_samples.push(out);
        proof {
            assert forall|k: int| 0 <= k < i + 1 implies sanitized_as(
                current_samples@[k],
                last_samples@,
                too_large,
                #[trigger] sanitized_samples@[k],
            ) by {
                if k < i {
                    assert(sanitized_samples@[k] == before[k]);
                }
            }
        }
        i = i + 1;
    }
    sanitized_samples
}

/// Nothing speaks for replacing `current`: it has no previous sample of
/// its series, or it is no counter, or the test does not say yes.
pub open spec fn stays<F: Fn(Number, Number) -> bool>(
    current: Sample,
    last: Seq<Sample>,
    too_large: F,
) -> bool {
    match previous_of(current, last) {
        None => true,
        Some(j) => current.metric_type != MetricType::Counter || !call_ensures(
            too_large,
            (current.value, last[j].value),
            true,
        ),
    }
}

/// A sample stays as it is where it has no previous sample of its series,
/// where it is a gauge, and where the test does not find it too large.
pub proof fn lemma_sanitize_keeps<F: Fn(Number, Number) -> bool>(
    current: Sample,
    last: Seq<Sample>,
    too_large: F,
    out: Sample,
)
    requires
        sanitized_as(current, last, too_large, out),
        stays(current, last, too_large),
    ensures
        out == current,
{
}

/// A sample is replaced only where it is a counter with a previous sample
/// of its series that the test finds it too large for, and then by that
/// previous sample.
pub proof fn lemma_sanitize_replaces<F: Fn(Number, Number) -> bool>(
    current: Sample,
    last: Seq<Sample>,
    too_large: F,
    out: Sample,
)
    requires
        sanitized_as(current, last, too_large, out),
        out != current,
    ensures
        current.metric_type == MetricType::Counter,
        previous_of(current, last) is Some,
        call_ensures(
            too_large,
            (current.value, last[previous_of(current, last)->Some_0].value),
            true,
        ),
        out == last[previous_of(current, last)->Some_0],
{
}

/// A counter with a previous sample of its series is replaced by it
/// wherever the test can only say yes.
pub proof fn lemma_sanitize_must_replace<F: Fn(Number, Number) -> bool>(
    current: Sample,
    last: Seq<Sample>,
    too_large: F,
    out: Sample,
)
    requires
        sanitized_as(current, last, too_large, out),
        current.metric_type == MetricType::Counter,
        previous_of(current, last) is Some,
        !call_ensures(
            too_large,
            (current.value, last[previous_of(current, last)->Some_0].value),
            false,
        ),
    ensures
        out == last[previous_of(current, last)->Some_0],
{
}

/// Where nothing speaks for replacing any sample, the samples come out as
/// they went in.
pub proof fn lemma_sanitize_changes_nothing<F: Fn(Number, Number) -> bool>(
    current: Seq<Sample>,
    last: Seq<Sample>,
    too_large: F,
    out: Seq<Sample>,
)
    requires
        out.len() == current.len(),
        forall|i: int|
            0 <= i < current.len() ==> sanitized_as(current[i], last, too_large, #[trigger] out[i]),
        forall|i: int| 0 <= i < current.len() ==> stays(#[trigger] current[i], last, too_large),
    ensures
        out == current,
{
    assert forall|i: int| 0 <= i < current.len() implies out[i] == current[i] by {
        assert(sanitized_as(current[i], last, too_large, out[i]));
        assert(stays(current[i], last, too_large));
    }
    assert(out =~= current);
}

} // verus!
