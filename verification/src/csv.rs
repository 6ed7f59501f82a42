//! The result file of a run: comma-separated values, one line for each stream.
//!
//! Producer and consumer write the same columns, and each leaves those of the other empty.
use crate::config::{
    broker_name, broker_type_str, role_name, role_str, run_mode_name, run_mode_str, BrokerType,
    Config, Role, RunMode,
};
use crate::summary::{SentCount, StreamSummary};
use crate::text::{
    all_digits, decimal, digit_char, digits_value, free_of, is_digit, lemma_decimal_digits,
    lemma_digit_behind, lemma_split_joined, lemma_split_piece, number_text, push_decimal,
    push_digit, split,
};
use vstd::prelude::*;
use vstd::string::StringExecFns;

verus! {

/// Fields with commas between them.
pub open spec fn joined(fields: Seq<Seq<char>>) -> Seq<char>
    decreases fields.len(),
{
    if fields.len() == 0 {
        Seq::empty()
    } else if fields.len() == 1 {
        fields[0]
    } else {
        joined(fields.drop_last()) + seq![','] + fields.last()
    }
}

/// A line of the file.
pub open spec fn csv_line(fields: Seq<Seq<char>>) -> Seq<char> {
    joined(fields) + seq!['\n']
}

/// A number of microseconds in milliseconds, with three decimal places.
pub open spec fn millis_text(us: u64) -> Seq<char> {
    decimal((us / 1000) as nat) + seq![
        '.',
        digit_char((us / 100 % 10) as nat),
        digit_char((us / 10 % 10) as nat),
        digit_char((us % 10) as nat),
    ]
}

/// The names of the columns.
pub open spec fn header_fields() -> Seq<Seq<char>> {
    seq![
        "role"@,
        "broker_type"@,
        "run_mode"@,
        "gbps_target"@,
        "message_size_bytes"@,
        "run_duration_secs"@,
        "messages_sent"@,
        "messages_received"@,
        "messages_lost"@,
        "achieved_throughput_gbps"@,
        "latency_p50_ms"@,
        "latency_p95_ms"@,
        "latency_p99_ms"@,
        "latency_max_ms"@,
    ]
}

/// What a producer writes of one stream.
pub open spec fn producer_fields(
    broker_type: Seq<char>,
    run_mode: Seq<char>,
    gbps_target: Seq<char>,
    message_size_bytes: u64,
    run_duration_secs: u64,
    messages_sent: u64,
) -> Seq<Seq<char>> {
    let blank = Seq::<char>::empty();
    seq![
        "producer"@,
        broker_type,
        run_mode,
        gbps_target,
        decimal(message_size_bytes as nat),
        decimal(run_duration_secs as nat),
        decimal(messages_sent as nat),
        blank,
        blank,
        blank,
        blank,
        blank,
        blank,
        blank,
    ]
}

/// What a consumer writes of one stream.
pub open spec fn consumer_fields(
    broker_type: Seq<char>,
    run_mode: Seq<char>,
    gbps_target: Seq<char>,
    run_duration_secs: u64,
    s: StreamSummary,
    achieved_gbps: Seq<char>,
) -> Seq<Seq<char>> {
    seq![
        "consumer"@,
        broker_type,
        run_mode,
        gbps_target,
        decimal(s.size_bytes as nat),
        decimal(run_duration_secs as nat),
        Seq::<char>::empty(),
        decimal(s.messages_received as nat),
        decimal(s.messages_lost as nat),
        achieved_gbps,
        millis_text(s.p50_us),
        millis_text(s.p95_us),
        millis_text(s.p99_us),
        millis_text(s.max_us),
    ]
}

/// A number of microseconds in milliseconds, as text.
pub fn millis(us: u64) -> (r: String)
    ensures
        r@ == millis_text(us),
{
    let mut r = String::new();
    push_decimal(&mut r, (us / 1000) as u128);
    r.push('.');
    push_digit(&mut r, us / 100 % 10);
    push_digit(&mut r, us / 10 % 10);
    push_digit(&mut r, us % 10);
    assert(r@ =~= millis_text(us));
    r
}

/// The texts of a list.
pub open spec fn texts(fields: Seq<String>) -> Seq<Seq<char>> {
    fields.map_values(|f: String| f@)
}

/// Appends a line.
fn push_csv_line(out: &mut String, fields: &Vec<String>)
    ensures
        final(out)@ == old(out)@ + csv_line(texts(fields@)),
{
    let ghost start = out@;
    let ghost all = texts(fields@);
    let n: usize = fields.len();
    assert(out@ =~= start + joined(all.take(0)));
    for i in 0..n
        invariant
            n == fields@.len(),
            all == texts(fields@),
            out@ == start + joined(all.take(i as int)),
    {
        if i > 0 {
            out.push(',');
        }
        out.append(fields[i].as_str());
        assert(all.take(i + 1).drop_last() =~= all.take(i as int));
        assert(out@ =~= start + joined(all.take(i + 1)));
    }
    out.push('\n');
    assert(all.take(n as int) =~= all);
    assert(out@ =~= start + csv_line(all));
}

/// Appends the line with the names of the columns.
pub fn write_csv_header(f: &mut String)
    ensures
        final(f)@ == old(f)@ + csv_line(header_fields()),
{
    let fields: Vec<String> = vec![
        "role".to_owned(),
        "broker_type".to_owned(),
        "run_mode".to_owned(),
        "gbps_target".to_owned(),
        "message_size_bytes".to_owned(),
        "run_duration_secs".to_owned(),
        "messages_sent".to_owned(),
        "messages_received".to_owned(),
        "messages_lost".to_owned(),
        "achieved_throughput_gbps".to_owned(),
        "latency_p50_ms".to_owned(),
        "latency_p95_ms".to_owned(),
        "latency_p99_ms".to_owned(),
        "latency_max_ms".to_owned(),
    ];
    assert(texts(fields@) =~= header_fields());
    push_csv_line(f, &fields);
}

/// Appends the line of a producer for one stream. The target is given as text, with its decimal
/// places.
pub fn write_producer_csv_row(
    f: &mut String,
    broker_type: &str,
    run_mode: &str,
    gbps_target: &str,
    message_size_bytes: u64,
    run_duration_secs: u64,
    messages_sent: u64,
)
    ensures
        final(f)@ == old(f)@ + csv_line(
            producer_fields(
                broker_type@,
                run_mode@,
                gbps_target@,
                message_size_bytes,
                run_duration_secs,
                messages_sent,
            ),
        ),
{
    let fields: Vec<String> = vec![
        "producer".to_owned(),
        broker_type.to_owned(),
        run_mode.to_owned(),
        gbps_target.to_owned(),
        number_text(message_size_bytes),
        number_text(run_duration_secs),
        number_text(messages_sent),
        String::new(),
        String::new(),
        String::new(),
        String::new(),
        String::new(),
        String::new(),
        String::new(),
    ];
    assert(texts(fields@) =~= producer_fields(
        broker_type@,
        run_mode@,
        gbps_target@,
        message_size_bytes,
        run_duration_secs,
        messages_sent,
    ));
    push_csv_line(f, &fields);
}

/// Appends the line of a consumer for one stream. Target and throughput are given as text, with
/// their decimal places.
pub fn write_consumer_csv_row(
    f: &mut String,
    broker_type: &str,
    run_mode: &str,
    gbps_target: &str,
    run_duration_secs: u64,
    summary: &StreamSummary,
    achieved_gbps: &str,
)
    ensures
        final(f)@ == old(f)@ + csv_line(
            consumer_fields(
                broker_type@,
                run_mode@,
                gbps_target@,
                run_duration_secs,
                *summary,
                achieved_gbps@,
            ),
        ),
{
    let fields: Vec<String> = vec![
        "consumer".to_owned(),
        broker_type.to_owned(),
        run_mode.to_owned(),
        gbps_target.to_owned(),
        number_text(summary.size_bytes),
        number_text(run_duration_secs),
        String::new(),
        number_text(summary.messages_received),
        number_text(summary.messages_lost),
        achieved_gbps.to_owned(),
        millis(summary.p50_us),
        millis(summary.p95_us),
        millis(summary.p99_us),
        millis(summary.max_us),
    ];
    assert(texts(fields@) =~= consumer_fields(
        broker_type@,
        run_mode@,
        gbps_target@,
        run_duration_secs,
        *summary,
        achieved_gbps@,
    ));
    push_csv_line(f, &fields);
}

/// The lines of a producer, one for each stream.
pub open spec fn producer_lines(c: Config, gbps_target: Seq<char>, rows: Seq<SentCount>) -> Seq<
    char,
>
    decreases rows.len(),
{
    if rows.len() == 0 {
        Seq::empty()
    } else {
        producer_lines(c, gbps_target, rows.drop_last()) + csv_line(
            producer_fields(
                broker_name(c.broker_type),
                run_mode_name(c.run_mode),
                gbps_target,
                rows.last().size_bytes,
                c.run_duration_secs,
                rows.last().sent,
            ),
        )
    }
}

/// The lines of a consumer, one for each stream.
pub open spec fn consumer_lines(
    c: Config,
    gbps_target: Seq<char>,
    rows: Seq<StreamSummary>,
    achieved: Seq<Seq<char>>,
) -> Seq<char>
    decreases rows.len(),
{
    if rows.len() == 0 {
        Seq::empty()
    } else {
        consumer_lines(c, gbps_target, rows.drop_last(), achieved) + csv_line(
            consumer_fields(
                broker_name(c.broker_type),
                run_mode_name(c.run_mode),
                gbps_target,
                c.run_duration_secs,
                rows.last(),
                achieved[rows.len() - 1],
            ),
        )
    }
}

/// The result file of a producer.
pub fn producer_csv(c: &Config, gbps_target: &str, rows: &Vec<SentCount>) -> (r: String)
    ensures
        r@ == csv_line(header_fields()) + producer_lines(*c, gbps_target@, rows@),
{
    let mut r = String::new();
    write_csv_header(&mut r);
    let n: usize = rows.len();
    assert(r@ =~= csv_line(header_fields()) + producer_lines(*c, gbps_target@, rows@.take(0)));
    for k in 0..n
        invariant
            n == rows@.len(),
            r@ == csv_line(header_fields()) + producer_lines(
                *c,
                gbps_target@,
                rows@.take(k as int),
            ),
    {
        write_producer_csv_row(
            &mut r,
            broker_type_str(&c.broker_type),
            run_mode_str(&c.run_mode),
            gbps_target,
            rows[k].size_bytes,
            c.run_duration_secs,
            rows[k].sent,
        );
        assert(rows@.take(k + 1).drop_last() =~= rows@.take(k as int));
        assert(r@ =~= csv_line(header_fields()) + producer_lines(
            *c,
            gbps_target@,
            rows@.take(k + 1),
        ));
    }
    assert(rows@.take(n as int) =~= rows@);
    r
}

/// The result file of a consumer.
pub fn consumer_csv(
    c: &Config,
    gbps_target: &str,
    rows: &Vec<StreamSummary>,
    achieved_gbps: &Vec<String>,
) -> (r: String)
    requires
        achieved_gbps@.len() == rows@.len(),
    ensures
        r@ == csv_line(header_fields()) + consumer_lines(
            *c,
            gbps_target@,
            rows@,
            texts(achieved_gbps@),
        ),
{
    let mut r = String::new();
    write_csv_header(&mut r);
    let n: usize = rows.len();
    let ghost achieved = texts(achieved_gbps@);
    assert(r@ =~= csv_line(header_fields()) + consumer_lines(
        *c,
        gbps_target@,
        rows@.take(0),
        achieved,
    ));
    for k in 0..n
        invariant
            n == rows@.len(),
            n == achieved_gbps@.len(),
            achieved == texts(achieved_gbps@),
            r@ == csv_line(header_fields()) + consumer_lines(
                *c,
                gbps_target@,
                rows@.take(k as int),
                achieved,
            ),
    {
        write_consumer_csv_row(
            &mut r,
            broker_type_str(&c.broker_type),
            run_mode_str(&c.run_mode),
            gbps_target,
            c.run_duration_secs,
            &rows[k],
            achieved_gbps[k].as_str(),
        );
        assert(rows@.take(k + 1).drop_last() =~= rows@.take(k as int));
        assert(r@ =~= csv_line(header_fields()) + consumer_lines(
            *c,
            gbps_target@,
            rows@.take(k + 1),
            achieved,
        ));
    }
    assert(rows@.take(n as int) =~= rows@);
    r
}

/// The path of the result file.
pub open spec fn csv_path_text(c: Config) -> Seq<char> {
    c.output_dir@ + "/"@ + role_name(c.role) + "_"@ + broker_name(c.broker_type) + "_out_"@
        + c.run_id@ + ".csv"@
}

/// The path of the result file.
pub fn csv_path(c: &Config) -> (r: String)
    ensures
        r@ == csv_path_text(*c),
        r@ == c.output_dir@ + "/"@ + role_name(c.role) + "_"@ + broker_name(c.broker_type)
            + "_out_"@ + c.run_id@ + ".csv"@,
{
    let mut r = c.output_dir.clone();
    r.append("/");
    r.append(role_str(&c.role));
    r.append("_");
    r.append(broker_type_str(&c.broker_type));
    r.append("_out_");
    r.append(c.run_id.as_str());
    r.append(".csv");
    r
}

/// Every line has a field for each column.
pub proof fn law_lines_have_all_columns(
    broker_type: Seq<char>,
    run_mode: Seq<char>,
    gbps_target: Seq<char>,
    size: u64,
    secs: u64,
    sent: u64,
    s: StreamSummary,
    achieved: Seq<char>,
)
    ensures
        producer_fields(broker_type, run_mode, gbps_target, size, secs, sent).len()
            == header_fields().len(),
        consumer_fields(broker_type, run_mode, gbps_target, secs, s, achieved).len()
            == header_fields().len(),
{
}

/// What a producer measures the consumer leaves empty, and the other way round.
pub proof fn law_producer_and_consumer_columns(
    broker_type: Seq<char>,
    run_mode: Seq<char>,
    gbps_target: Seq<char>,
    size: u64,
    secs: u64,
    sent: u64,
    s: StreamSummary,
    achieved: Seq<char>,
    column: int,
)
    requires
        6 <= column < header_fields().len(),
        achieved.len() > 0,
    ensures
        producer_fields(broker_type, run_mode, gbps_target, size, secs, sent)[column].len() == 0
            <==> consumer_fields(
            broker_type,
            run_mode,
            gbps_target,
            secs,
            s,
            achieved,
        )[column].len() > 0,
{
    lemma_decimal_digits(sent as nat);
    lemma_decimal_digits(s.messages_received as nat);
    lemma_decimal_digits(s.messages_lost as nat);
}

/// Whether a text is free of commas.
pub open spec fn no_comma(s: Seq<char>) -> bool {
    forall|i: int| 0 <= i < s.len() ==> #[trigger] s[i] != ','
}

/// A line with a given number of columns can be taken apart in one way only, as long as its fields
/// are free of commas.
pub proof fn law_lines_can_be_taken_apart(a: Seq<Seq<char>>, b: Seq<Seq<char>>)
    requires
        a.len() == b.len(),
        forall|i: int| 0 <= i < a.len() ==> no_comma(#[trigger] a[i]),
        forall|i: int| 0 <= i < b.len() ==> no_comma(#[trigger] b[i]),
        joined(a) == joined(b),
    ensures
        a == b,
    decreases a.len(),
{
    if a.len() > 1 {
        let (x, y) = (joined(a.drop_last()), joined(b.drop_last()));
        let (u, v) = (a[a.len() - 1], b[b.len() - 1]);
        let line = joined(a);
        assert(no_comma(u) && no_comma(v));
        assert(line == x + seq![','] + u);
        assert(line == y + seq![','] + v);
        if u.len() < v.len() {
            assert(line[x.len() as int] == ',');
            assert(line[x.len() as int] == v[x.len() - y.len() - 1]);
        }
        if v.len() < u.len() {
            assert(line[y.len() as int] == ',');
            assert(line[y.len() as int] == u[y.len() - x.len() - 1]);
        }
        assert(line.take(x.len() as int) =~= x);
        assert(line.take(y.len() as int) =~= y);
        assert(line.skip(x.len() as int + 1) =~= u);
        assert(line.skip(y.len() as int + 1) =~= v);
        assert(forall|i: int| 0 <= i < a.len() - 1 ==> a.drop_last()[i] == a[i]);
        assert(forall|i: int| 0 <= i < b.len() - 1 ==> b.drop_last()[i] == b[i]);
        law_lines_can_be_taken_apart(a.drop_last(), b.drop_last());
        assert(a =~= a.drop_last().push(u));
        assert(b =~= b.drop_last().push(v));
    } else {
        assert(a =~= b);
    }
}

/// A number of milliseconds in text has three digits behind its point, and without the point it is
/// the number of microseconds.
pub proof fn law_milliseconds_read_back(us: u64)
    ensures
        ({
            let t = millis_text(us);
            let n = t.len() - 4;
            &&& n >= 1
            &&& t[n] == '.'
            &&& all_digits(t.take(n) + t.skip(n + 1))
            &&& digits_value(t.take(n) + t.skip(n + 1)) == us
            &&& digits_value(t.take(n)) == us / 1000
        }),
{
    let t = millis_text(us);
    let whole = decimal((us / 1000) as nat);
    let n = t.len() - 4;
    lemma_decimal_digits((us / 1000) as nat);
    assert(t.take(n) =~= whole);
    let (a, b, c) = ((us / 100 % 10) as nat, (us / 10 % 10) as nat, (us % 10) as nat);
    let one = whole.push(digit_char(a));
    let two = one.push(digit_char(b));
    let three = two.push(digit_char(c));
    assert(t.take(n) + t.skip(n + 1) =~= three);
    lemma_digit_behind(whole, a);
    lemma_digit_behind(one, b);
    lemma_digit_behind(two, c);
    assert(us == 1000 * (us / 1000) + 100 * (us / 100 % 10) + 10 * (us / 10 % 10) + us % 10);
}

/// The fields of a line are what stands between its commas.
pub proof fn law_fields_read_back(fields: Seq<Seq<char>>)
    requires
        fields.len() > 0,
        forall|i: int| 0 <= i < fields.len() ==> free_of(#[trigger] fields[i], ','),
    ensures
        split(joined(fields), ',') == fields,
    decreases fields.len(),
{
    if fields.len() == 1 {
        assert(free_of(fields[0], ','));
        lemma_split_piece(fields[0], ',');
        assert(fields =~= seq![fields[0]]);
    } else {
        let before = fields.drop_last();
        assert(forall|i: int| 0 <= i < before.len() ==> before[i] == fields[i]);
        law_fields_read_back(before);
        let last = fields[fields.len() - 1];
        assert(free_of(last, ','));
        lemma_split_piece(last, ',');
        lemma_split_joined(joined(before), last, ',');
        assert(before + seq![last] =~= fields);
    }
}

proof fn lemma_joined_free(fields: Seq<Seq<char>>, c: char)
    requires
        c != ',',
        forall|i: int| 0 <= i < fields.len() ==> free_of(#[trigger] fields[i], c),
    ensures
        free_of(joined(fields), c),
    decreases fields.len(),
{
    if fields.len() == 1 {
        assert(free_of(fields[0], c));
    } else if fields.len() > 1 {
        let before = fields.drop_last();
        assert(forall|i: int| 0 <= i < before.len() ==> before[i] == fields[i]);
        lemma_joined_free(before, c);
        assert(free_of(fields[fields.len() - 1], c));
    }
}

/// Whether a text can stand in a field: it holds neither commas nor line ends.
pub open spec fn fits_field(s: Seq<char>) -> bool {
    free_of(s, ',') && free_of(s, '\n')
}

proof fn lemma_decimal_fits(n: nat)
    ensures
        fits_field(decimal(n)),
{
    lemma_decimal_digits(n);
    assert(forall|i: int| 0 <= i < decimal(n).len() ==> is_digit(#[trigger] decimal(n)[i]));
}

proof fn lemma_millis_fit(us: u64)
    ensures
        fits_field(millis_text(us)),
{
    lemma_decimal_fits((us / 1000) as nat);
}

proof fn lemma_names_fit(b: BrokerType, m: RunMode)
    ensures
        fits_field(broker_name(b)),
        fits_field(run_mode_name(m)),
        fits_field("producer"@),
        fits_field("consumer"@),
        fits_field(Seq::<char>::empty()),
{
    reveal_strlit("redpanda");
    reveal_strlit("kafka");
    reveal_strlit("nats");
    reveal_strlit("grpc");
    reveal_strlit("combined");
    reveal_strlit("24b");
    reveal_strlit("256b");
    reveal_strlit("4kb");
    reveal_strlit("64kb");
    reveal_strlit("512kb");
    reveal_strlit("4mb");
    reveal_strlit("16mb");
    reveal_strlit("80mb");
    reveal_strlit("producer");
    reveal_strlit("consumer");
}

proof fn lemma_header_fits()
    ensures
        forall|i: int| 0 <= i < header_fields().len() ==> fits_field(#[trigger] header_fields()[i]),
{
    reveal_strlit("role");
    reveal_strlit("broker_type");
    reveal_strlit("run_mode");
    reveal_strlit("gbps_target");
    reveal_strlit("message_size_bytes");
    reveal_strlit("run_duration_secs");
    reveal_strlit("messages_sent");
    reveal_strlit("messages_received");
    reveal_strlit("messages_lost");
    reveal_strlit("achieved_throughput_gbps");
    reveal_strlit("latency_p50_ms");
    reveal_strlit("latency_p95_ms");
    reveal_strlit("latency_p99_ms");
    reveal_strlit("latency_max_ms");
}

proof fn lemma_file_lines(start: Seq<char>, line: Seq<char>)
    requires
        free_of(line, '\n'),
    ensures
        split(start + (line + seq!['\n']), '\n').len() == split(start, '\n').len() + 1,
        split(start, '\n').last() == Seq::<char>::empty() ==> {
            let pieces = split(start, '\n');
            split(start + (line + seq!['\n']), '\n') == pieces.drop_last().push(line).push(
                Seq::<char>::empty(),
            )
        },
{
    let empty = Seq::<char>::empty();
    let all = start + (line + seq!['\n']);
    lemma_split_joined(start + line, empty, '\n');
    assert(all =~= (start + line) + seq!['\n'] + empty);
    lemma_split_piece(empty, '\n');
    lemma_split_tail(start, line);
    let pieces = split(start, '\n');
    let grown = pieces.drop_last().push(pieces.last() + line);
    assert(split(all, '\n') =~= grown.push(empty));
    if pieces.last() == empty {
        assert(pieces.last() + line =~= line);
    }
}

proof fn lemma_split_tail(start: Seq<char>, line: Seq<char>)
    requires
        free_of(line, '\n'),
    ensures
        split(start, '\n').len() >= 1,
        split(start + line, '\n') == split(start, '\n').drop_last().push(
            split(start, '\n').last() + line,
        ),
    decreases line.len(),
{
    let pieces = split(start, '\n');
    if line.len() == 0 {
        lemma_split_joined(start, Seq::empty(), '\n');
        lemma_split_some(start);
        assert(start + line =~= start);
        assert(pieces.last() + line =~= pieces.last());
        assert(pieces =~= pieces.drop_last().push(pieces.last()));
    } else {
        let before = line.drop_last();
        assert(forall|i: int| 0 <= i < before.len() ==> before[i] == line[i]);
        lemma_split_tail(start, before);
        assert(line[line.len() - 1] != '\n');
        assert((start + line).drop_last() =~= start + before);
        assert((pieces.last() + before).push(line.last()) =~= pieces.last() + line);
        let t = split(start + before, '\n');
        assert(t.drop_last() =~= pieces.drop_last());
        assert(split(start + line, '\n') =~= pieces.drop_last().push(pieces.last() + line));
    }
}

proof fn lemma_split_some(s: Seq<char>)
    ensures
        split(s, '\n').len() >= 1,
    decreases s.len(),
{
    if s.len() > 0 {
        lemma_split_some(s.drop_last());
    }
}

/// The lines of a file that was written line by line, each line given by its fields.
pub open spec fn is_file_of(file: Seq<char>, lines: Seq<Seq<Seq<char>>>) -> bool {
    &&& split(file, '\n').len() == lines.len() + 1
    &&& split(file, '\n')[lines.len() as int] == Seq::<char>::empty()
    &&& forall|i: int|
        0 <= i < lines.len() ==> split(#[trigger] split(file, '\n')[i], ',') == lines[i]
}

proof fn lemma_one_more_line(
    start: Seq<char>,
    lines: Seq<Seq<Seq<char>>>,
    fields: Seq<Seq<char>>,
)
    requires
        is_file_of(start, lines),
        fields.len() > 0,
        forall|i: int| 0 <= i < fields.len() ==> fits_field(#[trigger] fields[i]),
    ensures
        is_file_of(start + csv_line(fields), lines.push(fields)),
{
    lemma_joined_free(fields, '\n');
    lemma_file_lines(start, joined(fields));
    law_fields_read_back(fields);
    let pieces = split(start, '\n');
    let after = split(start + csv_line(fields), '\n');
    assert(pieces.last() == pieces[lines.len() as int]);
    assert forall|i: int| 0 <= i < lines.push(fields).len() implies split(
        #[trigger] after[i],
        ',',
    ) == lines.push(fields)[i] by {
        if i < lines.len() {
            assert(after[i] == pieces[i]);
        } else {
            assert(after[i] == joined(fields));
        }
    }
}

proof fn lemma_header_line()
    ensures
        is_file_of(csv_line(header_fields()), seq![header_fields()]),
{
    let none = Seq::<Seq<Seq<char>>>::empty();
    let empty = Seq::<char>::empty();
    lemma_header_fits();
    lemma_split_piece(empty, '\n');
    assert(is_file_of(empty, none));
    lemma_one_more_line(empty, none, header_fields());
    assert(empty + csv_line(header_fields()) =~= csv_line(header_fields()));
    assert(none.push(header_fields()) =~= seq![header_fields()]);
}

/// The result file of a consumer reads back: it has a line for the names of the columns, then one
/// for each stream, in their order. In the line of a stream each column holds the figure of that
/// stream, and nobody else's.
pub proof fn law_consumer_file_reads_back(
    c: Config,
    gbps_target: Seq<char>,
    rows: Seq<StreamSummary>,
    achieved: Seq<Seq<char>>,
    i: int,
)
    requires
        achieved.len() >= rows.len(),
        fits_field(gbps_target),
        forall|k: int| 0 <= k < rows.len() ==> fits_field(#[trigger] achieved[k]),
        0 <= i < rows.len(),
    ensures
        ({
            let file = csv_line(header_fields()) + consumer_lines(c, gbps_target, rows, achieved);
            let lines = split(file, '\n');
            let line = split(lines[i + 1], ',');
            &&& lines.len() == rows.len() + 2
            &&& split(lines[0], ',') == header_fields()
            &&& line.len() == 14
            &&& line[0] == "consumer"@
            &&& line[1] == broker_name(c.broker_type)
            &&& line[2] == run_mode_name(c.run_mode)
            &&& line[3] == gbps_target
            &&& line[4] == decimal(rows[i].size_bytes as nat)
            &&& line[5] == decimal(c.run_duration_secs as nat)
            &&& line[6] == Seq::<char>::empty()
            &&& line[7] == decimal(rows[i].messages_received as nat)
            &&& line[8] == decimal(rows[i].messages_lost as nat)
            &&& line[9] == achieved[i]
            &&& line[10] == millis_text(rows[i].p50_us)
            &&& line[11] == millis_text(rows[i].p95_us)
            &&& line[12] == millis_text(rows[i].p99_us)
            &&& line[13] == millis_text(rows[i].max_us)
        }),
{
    lemma_consumer_file(c, gbps_target, rows, achieved);
    let file = csv_line(header_fields()) + consumer_lines(c, gbps_target, rows, achieved);
    let all = seq![header_fields()] + Seq::new(
        rows.len(),
        |k: int| consumer_line_fields(c, gbps_target, rows[k], achieved[k]),
    );
    assert(split(split(file, '\n')[0], ',') == all[0]);
    assert(split(split(file, '\n')[i + 1], ',') == all[i + 1]);
}

spec fn consumer_line_fields(
    c: Config,
    gbps_target: Seq<char>,
    row: StreamSummary,
    achieved: Seq<char>,
) -> Seq<Seq<char>> {
    consumer_fields(
        broker_name(c.broker_type),
        run_mode_name(c.run_mode),
        gbps_target,
        c.run_duration_secs,
        row,
        achieved,
    )
}

proof fn lemma_consumer_file(
    c: Config,
    gbps_target: Seq<char>,
    rows: Seq<StreamSummary>,
    achieved: Seq<Seq<char>>,
)
    requires
        achieved.len() >= rows.len(),
        fits_field(gbps_target),
        forall|k: int| 0 <= k < rows.len() ==> fits_field(#[trigger] achieved[k]),
    ensures
        is_file_of(
            csv_line(header_fields()) + consumer_lines(c, gbps_target, rows, achieved),
            seq![header_fields()] + Seq::new(
                rows.len(),
                |k: int| consumer_line_fields(c, gbps_target, rows[k], achieved[k]),
            ),
        ),
    decreases rows.len(),
{
    let head = csv_line(header_fields());
    let lines = |n: nat| Seq::new(
        n,
        |k: int| consumer_line_fields(c, gbps_target, rows[k], achieved[k]),
    );
    lemma_header_line();
    if rows.len() == 0 {
        assert(head + consumer_lines(c, gbps_target, rows, achieved) =~= head);
        assert(seq![header_fields()] + lines(0) =~= seq![header_fields()]);
    } else {
        let before = rows.drop_last();
        let n = before.len();
        lemma_consumer_file(c, gbps_target, before, achieved);
        assert(Seq::new(
            n,
            |k: int| consumer_line_fields(c, gbps_target, before[k], achieved[k]),
        ) =~= lines(n));
        let fields = consumer_line_fields(c, gbps_target, rows[n as int], achieved[n as int]);
        lemma_names_fit(c.broker_type, c.run_mode);
        let row = rows[n as int];
        lemma_decimal_fits(row.size_bytes as nat);
        lemma_decimal_fits(c.run_duration_secs as nat);
        lemma_decimal_fits(row.messages_received as nat);
        lemma_decimal_fits(row.messages_lost as nat);
        lemma_millis_fit(row.p50_us);
        lemma_millis_fit(row.p95_us);
        lemma_millis_fit(row.p99_us);
        lemma_millis_fit(row.max_us);
        assert(fits_field(achieved[n as int]));
        let done = head + consumer_lines(c, gbps_target, before, achieved);
        lemma_one_more_line(done, seq![header_fields()] + lines(n), fields);
        assert(head + consumer_lines(c, gbps_target, rows, achieved) =~= done + csv_line(fields));
        assert((seq![header_fields()] + lines(n)).push(fields) =~= seq![header_fields()] + lines(
            rows.len(),
        ));
    }
}

/// The throughput of a stream stands in its own line: two files that differ in the throughput of
/// one stream differ in the line of that stream and in no other.
pub proof fn law_throughputs_stay_apart(
    c: Config,
    gbps_target: Seq<char>,
    rows: Seq<StreamSummary>,
    a: Seq<Seq<char>>,
    b: Seq<Seq<char>>,
    i: int,
    k: int,
)
    requires
        a.len() == rows.len(),
        b.len() == rows.len(),
        fits_field(gbps_target),
        forall|j: int| 0 <= j < rows.len() ==> fits_field(#[trigger] a[j]),
        forall|j: int| 0 <= j < rows.len() ==> fits_field(#[trigger] b[j]),
        forall|j: int| 0 <= j < rows.len() && j != i ==> #[trigger] a[j] == b[j],
        0 <= i < rows.len(),
        0 <= k < rows.len(),
        a[i] != b[i],
    ensures
        ({
            let file_a = csv_line(header_fields()) + consumer_lines(c, gbps_target, rows, a);
            let file_b = csv_line(header_fields()) + consumer_lines(c, gbps_target, rows, b);
            split(split(file_a, '\n')[k + 1], ',') == split(split(file_b, '\n')[k + 1], ',')
                <==> k != i
        }),
{
    law_consumer_file_reads_back(c, gbps_target, rows, a, k);
    law_consumer_file_reads_back(c, gbps_target, rows, b, k);
    let file_a = csv_line(header_fields()) + consumer_lines(c, gbps_target, rows, a);
    let file_b = csv_line(header_fields()) + consumer_lines(c, gbps_target, rows, b);
    if k != i {
        assert(a[k] == b[k]);
        assert(split(split(file_a, '\n')[k + 1], ',') =~= split(split(file_b, '\n')[k + 1], ','));
    }
}

/// The result file of a producer reads back: a line for the names of the columns, then one for each
/// stream, in their order, with what was sent on that stream.
pub proof fn law_producer_file_reads_back(
    c: Config,
    gbps_target: Seq<char>,
    rows: Seq<SentCount>,
    i: int,
)
    requires
        fits_field(gbps_target),
        0 <= i < rows.len(),
    ensures
        ({
            let file = csv_line(header_fields()) + producer_lines(c, gbps_target, rows);
            let lines = split(file, '\n');
            let line = split(lines[i + 1], ',');
            &&& lines.len() == rows.len() + 2
            &&& split(lines[0], ',') == header_fields()
            &&& line.len() == 14
            &&& line[0] == "producer"@
            &&& line[1] == broker_name(c.broker_type)
            &&& line[2] == run_mode_name(c.run_mode)
            &&& line[3] == gbps_target
            &&& line[4] == decimal(rows[i].size_bytes as nat)
            &&& line[5] == decimal(c.run_duration_secs as nat)
            &&& line[6] == decimal(rows[i].sent as nat)
            &&& forall|k: int| 7 <= k < 14 ==> #[trigger] line[k] == Seq::<char>::empty()
        }),
{
    lemma_producer_file(c, gbps_target, rows);
    let file = csv_line(header_fields()) + producer_lines(c, gbps_target, rows);
    let all = seq![header_fields()] + Seq::new(
        rows.len(),
        |k: int| producer_line_fields(c, gbps_target, rows[k]),
    );
    assert(split(split(file, '\n')[0], ',') == all[0]);
    assert(split(split(file, '\n')[i + 1], ',') == all[i + 1]);
}

spec fn producer_line_fields(c: Config, gbps_target: Seq<char>, row: SentCount) -> Seq<Seq<char>> {
    producer_fields(
        broker_name(c.broker_type),
        run_mode_name(c.run_mode),
        gbps_target,
        row.size_bytes,
        c.run_duration_secs,
        row.sent,
    )
}

proof fn lemma_producer_file(c: Config, gbps_target: Seq<char>, rows: Seq<SentCount>)
    requires
        fits_field(gbps_target),
    ensures
        is_file_of(
            csv_line(header_fields()) + producer_lines(c, gbps_target, rows),
            seq![header_fields()] + Seq::new(
                rows.len(),
                |k: int| producer_line_fields(c, gbps_target, rows[k]),
            ),
        ),
    decreases rows.len(),
{
    let head = csv_line(header_fields());
    let lines = |n: nat| Seq::new(n, |k: int| producer_line_fields(c, gbps_target, rows[k]));
    lemma_header_line();
    if rows.len() == 0 {
        assert(head + producer_lines(c, gbps_target, rows) =~= head);
        assert(seq![header_fields()] + lines(0) =~= seq![header_fields()]);
    } else {
        let before = rows.drop_last();
        let n = before.len();
        lemma_producer_file(c, gbps_target, before);
        assert(Seq::new(n, |k: int| producer_line_fields(c, gbps_target, before[k])) =~= lines(n));
        let row = rows[n as int];
        let fields = producer_line_fields(c, gbps_target, row);
        lemma_names_fit(c.broker_type, c.run_mode);
        lemma_decimal_fits(row.size_bytes as nat);
        lemma_decimal_fits(c.run_duration_secs as nat);
        lemma_decimal_fits(row.sent as nat);
        let done = head + producer_lines(c, gbps_target, before);
        lemma_one_more_line(done, seq![header_fields()] + lines(n), fields);
        assert(head + producer_lines(c, gbps_target, rows) =~= done + csv_line(fields));
        assert((seq![header_fields()] + lines(n)).push(fields) =~= seq![header_fields()] + lines(
            rows.len(),
        ));
    }
}

/// Texts are taken one by one, in their order.
pub proof fn law_texts_one_by_one(fields: Seq<String>, i: int)
    requires
        0 <= i < fields.len(),
    ensures
        texts(fields).len() == fields.len(),
        texts(fields)[i] == fields[i]@,
{
}

/// The result file stands in the output directory. Its name is made of the role, the broker, `out`,
/// and the run id with the ending `.csv`, joined by underscores.
pub proof fn law_parts_of_the_csv_path(c: Config)
    ensures
        ({
            let path = csv_path_text(c);
            let n = c.output_dir@.len() as int;
            &&& path.take(n) == c.output_dir@
            &&& path[n] == '/'
            &&& split(path.skip(n + 1), '_') == seq![
                role_name(c.role),
                broker_name(c.broker_type),
                "out"@,
            ] + split(c.run_id@ + ".csv"@, '_')
        }),
{
    let path = csv_path_text(c);
    let n = c.output_dir@.len() as int;
    let (role, broker, end) = (
        role_name(c.role),
        broker_name(c.broker_type),
        c.run_id@ + ".csv"@,
    );
    reveal_strlit("/");
    reveal_strlit("_");
    reveal_strlit("out");
    reveal_strlit("_out_");
    lemma_names_are_one_piece(c.role, c.broker_type);
    assert(path.take(n) =~= c.output_dir@);
    assert(path.skip(n + 1) =~= role + seq!['_'] + (broker + seq!['_'] + ("out"@ + seq!['_']
        + end)));
    lemma_split_joined("out"@, end, '_');
    lemma_split_piece("out"@, '_');
    lemma_split_joined(broker, "out"@ + seq!['_'] + end, '_');
    lemma_split_piece(broker, '_');
    lemma_split_joined(role, broker + seq!['_'] + ("out"@ + seq!['_'] + end), '_');
    lemma_split_piece(role, '_');
    assert(seq![role] + (seq![broker] + (seq!["out"@] + split(end, '_'))) =~= seq![
        role,
        broker,
        "out"@,
    ] + split(end, '_'));
}

proof fn lemma_names_are_one_piece(role: Role, broker: BrokerType)
    ensures
        free_of(role_name(role), '_'),
        free_of(broker_name(broker), '_'),
{
    reveal_strlit("producer");
    reveal_strlit("consumer");
    reveal_strlit("redpanda");
    reveal_strlit("kafka");
    reveal_strlit("nats");
    reveal_strlit("grpc");
}

} // verus!
