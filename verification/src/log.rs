//! The typed view over one access-log line: a fixed-arity positional
//! record, named accessors, and tolerant numeric parsing with a defined
//! sentinel fallback.

use vstd::prelude::*;
use vstd::string::*;

use crate::chars::{
    is_duration, is_duration_text, parse_i64, parse_i64_spec, parse_sentinel_i64, sentinel_i64,
};
use crate::tokenizer::{tokenize, tokenize_spec, views_of, LineFormat};

verus! {

/// Why a line failed to become a record.
#[derive(Clone, Copy, Debug, PartialEq, Eq, Structural)]
pub enum LogParseError {
    /// The line did not tokenize to the expected number of fields.
    FieldCount,
    /// The composite request field did not hold exactly a method, a URL
    /// and an HTTP version.
    RequestFormat,
    /// A numeric field with no sentinel fallback failed to parse.
    NumericField,
}

/// One access-log entry, bound positionally from the fields of one
/// line. Constructed once per line, read-only afterward.
#[derive(Debug)]
pub struct Log {
    pub request_type: String,
    pub close_time: String,
    pub elb_identifier: String,
    pub client: String,
    pub target: String,
    pub request_processing_time: String,
    pub target_processing_time: String,
    pub response_processing_time: String,
    pub elb_status_code: String,
    pub target_status_code: String,
    pub received_bytes: String,
    pub sent_bytes: String,
    pub request_method: String,
    pub request_url: String,
    pub request_http_version: String,
    pub user_agent: String,
    pub ssl_cipher: String,
    pub ssl_protocol: String,
    pub target_group_arn: String,
    pub x_amazn_trace_id: String,
    pub sni_domain_name: String,
    pub cert_arn: String,
    pub matched_rule_priority: String,
    pub request_creation_time: String,
    pub actions_executed: String,
    pub redirect_url: String,
    pub error_reason: String,
    pub targets_list: String,
    pub targets_status_code_list: String,
    pub classification: String,
    pub classification_reason: String,
}

/// The arity of a record whose composite request field was already
/// expanded into method, URL and HTTP version tokens.
pub open spec fn expanded_arity() -> int {
    31
}

/// The arity of a raw quoted record, whose request stands in one
/// composite field.
pub open spec fn quoted_arity() -> int {
    29
}

/// The numeric fields with no sentinel fallback all parse: the three
/// processing-time durations, the load-balancer status code and the two
/// byte counts. Field order is that of `Log::field_views`.
pub open spec fn expanded_numerics_ok(fs: Seq<Seq<char>>) -> bool {
    &&& is_duration_text(fs[5])
    &&& is_duration_text(fs[6])
    &&& is_duration_text(fs[7])
    &&& parse_i64_spec(fs[8]) is Some
    &&& parse_i64_spec(fs[10]) is Some
    &&& parse_i64_spec(fs[11]) is Some
}

/// An expanded field sequence binds to a record.
pub open spec fn expanded_ok(fs: Seq<Seq<char>>) -> bool {
    fs.len() == expanded_arity() && expanded_numerics_ok(fs)
}

/// The expansion of a quoted field sequence: the composite request
/// field replaced by its three tokens.
pub open spec fn quoted_expand(fs: Seq<Seq<char>>) -> Seq<Seq<char>> {
    fs.take(12) + tokenize_spec(fs[12], LineFormat::Expanded) + fs.skip(13)
}

/// A quoted field sequence binds to a record.
pub open spec fn quoted_ok(fs: Seq<Seq<char>>) -> bool {
    &&& fs.len() == quoted_arity()
    &&& tokenize_spec(fs[12], LineFormat::Expanded).len() == 3
    &&& expanded_numerics_ok(quoted_expand(fs))
}

impl Log {
    /// The record's fields in their positional order.
    pub open spec fn field_views(self) -> Seq<Seq<char>> {
        seq![
            self.request_type@,
            self.close_time@,
            self.elb_identifier@,
            self.client@,
            self.target@,
            self.request_processing_time@,
            self.target_processing_time@,
            self.response_processing_time@,
            self.elb_status_code@,
            self.target_status_code@,
            self.received_bytes@,
            self.sent_bytes@,
            self.request_method@,
            self.request_url@,
            self.request_http_version@,
            self.user_agent@,
            self.ssl_cipher@,
            self.ssl_protocol@,
            self.target_group_arn@,
            self.x_amazn_trace_id@,
            self.sni_domain_name@,
            self.cert_arn@,
            self.matched_rule_priority@,
            self.request_creation_time@,
            self.actions_executed@,
            self.redirect_url@,
            self.error_reason@,
            self.targets_list@,
            self.targets_status_code_list@,
            self.classification@,
            self.classification_reason@,
        ]
    }

    /// Every numeric field with no sentinel fallback parses.
    pub open spec fn wf(self) -> bool {
        expanded_numerics_ok(self.field_views())
    }

    /// Binds exactly 31 already-expanded field strings positionally to a
    /// record, parsing the numeric fields. Too few or too many fields is
    /// a field-count error; a required numeric field that does not parse
    /// is a numeric-field error.
    pub fn from_expanded_fields(fields: &Vec<String>) -> (r: Result<Log, LogParseError>)
        ensures
            r is Ok <==> expanded_ok(views_of(fields@)),
            r matches Ok(l) ==> l.field_views() == views_of(fields@) && l.wf(),
            fields@.len() != expanded_arity() ==> r == Result::<Log, LogParseError>::Err(
                LogParseError::FieldCount,
            ),
            fields@.len() == expanded_arity() && !expanded_numerics_ok(views_of(fields@)) ==> r
                == Result::<Log, LogParseError>::Err(LogParseError::NumericField),
    {
        if fields.len() != 31 {
            return Err(LogParseError::FieldCount);
        }
        let numerics_ok = is_duration(fields[5].as_str()) && is_duration(fields[6].as_str())
            && is_duration(fields[7].as_str()) && parse_i64(fields[8].as_str()).is_some()
            && parse_i64(fields[10].as_str()).is_some() && parse_i64(
            fields[11].as_str(),
        ).is_some();
        if !numerics_ok {
            return Err(LogParseError::NumericField);
        }
        let l = Log {
            request_type: fields[0].clone(),
            close_time: fields[1].clone(),
            elb_identifier: fields[2].clone(),
            client: fields[3].clone(),
            target: fields[4].clone(),
            request_processing_time: fields[5].clone(),
            target_processing_time: fields[6].clone(),
            response_processing_time: fields[7].clone(),
            elb_status_code: fields[8].clone(),
            target_status_code: fields[9].clone(),
            received_bytes: fields[10].clone(),
            sent_bytes: fields[11].clone(),
            request_method: fields[12].clone(),
            request_url: fields[13].clone(),
            request_http_version: fields[14].clone(),
            user_agent: fields[15].clone(),
            ssl_cipher: fields[16].clone(),
            ssl_protocol: fields[17].clone(),
            target_group_arn: fields[18].clone(),
            x_amazn_trace_id: fields[19].clone(),
            sni_domain_name: fields[20].clone(),
            cert_arn: fields[21].clone(),
            matched_rule_priority: fields[22].clone(),
            request_creation_time: fields[23].clone(),
            actions_executed: fields[24].clone(),
            redirect_url: fields[25].clone(),
            error_reason: fields[26].clone(),
            targets_list: fields[27].clone(),
            targets_status_code_list: fields[28].clone(),
            classification: fields[29].clone(),
            classification_reason: fields[30].clone(),
        };
        proof {
            assert(l.field_views() =~= views_of(fields@));
        }
        Ok(l)
    }

    /// Binds exactly 29 raw field strings, splitting the composite
    /// request field (position 12) into method, URL and HTTP version.
    #[verifier::loop_isolation(false)]
    pub fn from_quoted_fields(fields: &Vec<String>) -> (r: Result<Log, LogParseError>)
        ensures
            r is Ok <==> quoted_ok(views_of(fields@)),
            r matches Ok(l) ==> l.field_views() == quoted_expand(views_of(fields@)) && l.wf(),
            fields@.len() != quoted_arity() ==> r == Result::<Log, LogParseError>::Err(
                LogParseError::FieldCount,
            ),
            fields@.len() == quoted_arity() && tokenize_spec(
                views_of(fields@)[12],
                LineFormat::Expanded,
            ).len() != 3 ==> r == Result::<Log, LogParseError>::Err(LogParseError::RequestFormat),
    {
        if fields.len() != 29 {
            return Err(LogParseError::FieldCount);
        }
        let parts = tokenize(fields[12].as_str(), LineFormat::Expanded);
        if parts.len() != 3 {
            return Err(LogParseError::RequestFormat);
        }
        let mut full: Vec<String> = Vec::new();
        let mut i: usize = 0;
        while i < 12
            invariant
                0 <= i <= 12,
                full@.len() == i,
                forall|k: int| 0 <= k < i ==> #[trigger] full@[k] == fields@[k],
            decreases 12 - i,
        {
            full.push(fields[i].clone());
            i = i + 1;
        }
        full.push(parts[0].clone());
        full.push(parts[1].clone());
        full.push(parts[2].clone());
        let mut j: usize = 13;
        while j < 29
            invariant
                13 <= j <= 29,
                full@.len() == j + 2,
                forall|k: int| 0 <= k < 12 ==> #[trigger] full@[k] == fields@[k],
                forall|k: int| 12 <= k < 15 ==> #[trigger] full@[k] == parts@[k - 12],
                forall|k: int| 15 <= k < j + 2 ==> #[trigger] full@[k] == fields@[k - 2],
            decreases 29 - j,
        {
            full.push(fields[j].clone());
            j = j + 1;
        }
        proof {
            assert(views_of(parts@)[0] == parts@[0]@);
            assert(views_of(parts@)[1] == parts@[1]@);
            assert(views_of(parts@)[2] == parts@[2]@);
            assert(views_of(full@) =~= quoted_expand(views_of(fields@)));
        }
        Self::from_expanded_fields(&full)
    }

    /// The load-balancer status code of a well-formed record.
    pub fn elb_status_code_value(&self) -> (r: i64)
        requires
            self.wf(),
        ensures
            Some(r) == parse_i64_spec(self.elb_status_code@),
    {
        parse_i64(self.elb_status_code.as_str()).unwrap()
    }

    /// The request size in bytes of a well-formed record.
    pub fn received_bytes_value(&self) -> (r: i64)
        requires
            self.wf(),
        ensures
            Some(r) == parse_i64_spec(self.received_bytes@),
    {
        parse_i64(self.received_bytes.as_str()).unwrap()
    }

    /// The response size in bytes of a well-formed record.
    pub fn sent_bytes_value(&self) -> (r: i64)
        requires
            self.wf(),
        ensures
            Some(r) == parse_i64_spec(self.sent_bytes@),
    {
        parse_i64(self.sent_bytes.as_str()).unwrap()
    }

    /// The target's status code, or the sentinel `-1` when the field is
    /// absent or not numeric: targets that never answered leave no code.
    pub fn target_status_code_value(&self) -> (r: i64)
        ensures
            r == sentinel_i64(self.target_status_code@),
    {
        parse_sentinel_i64(self.target_status_code.as_str())
    }

    /// The matched rule priority, or the sentinel `-1` when the field is
    /// absent or not numeric: the default rule reports no priority.
    pub fn matched_rule_priority_value(&self) -> (r: i64)
        ensures
            r == sentinel_i64(self.matched_rule_priority@),
    {
        parse_sentinel_i64(self.matched_rule_priority.as_str())
    }

    /// The aggregation key joining request method and URL.
    pub fn key_method_url(&self) -> (r: String)
        ensures
            r@ == self.request_method@ + seq![' '] + self.request_url@,
    {
        proof {
            reveal_strlit(" ");
            assert(" "@ =~= seq![' ']);
        }
        let mut s = String::from_str(self.request_method.as_str());
        s.append(" ");
        s.append(self.request_url.as_str());
        s
    }

    /// The aggregation key holding the full request descriptor: method,
    /// URL and HTTP version.
    pub fn key_full_request(&self) -> (r: String)
        ensures
            r@ == self.request_method@ + seq![' '] + self.request_url@ + seq![' ']
                + self.request_http_version@,
    {
        proof {
            reveal_strlit(" ");
            assert(" "@ =~= seq![' ']);
        }
        let mut s = String::from_str(self.request_method.as_str());
        s.append(" ");
        s.append(self.request_url.as_str());
        s.append(" ");
        s.append(self.request_http_version.as_str());
        s
    }
}

/// One ranked result row: a derived key and how often it occurred.
#[derive(Debug)]
pub struct UrlCount {
    pub url: String,
    pub count: u64,
}

impl PartialEq for UrlCount {
    /// Rows stand for the same key when their URLs agree, as the
    /// frequency table holds each key at most once.
    fn eq(&self, other: &Self) -> (r: bool) {
        self.url == other.url
    }
}

impl vstd::std_specs::cmp::PartialEqSpecImpl for UrlCount {
    open spec fn obeys_eq_spec() -> bool {
        true
    }

    open spec fn eq_spec(&self, other: &Self) -> bool {
        self.url@ == other.url@
    }
}

impl PartialOrd for UrlCount {
    /// Rows order by their counts alone.
    fn partial_cmp(&self, other: &Self) -> (r: Option<core::cmp::Ordering>) {
        if self.count < other.count {
            Some(core::cmp::Ordering::Less)
        } else if self.count == other.count {
            Some(core::cmp::Ordering::Equal)
        } else {
            Some(core::cmp::Ordering::Greater)
        }
    }
}

impl vstd::std_specs::cmp::PartialOrdSpecImpl for UrlCount {
    open spec fn obeys_partial_cmp_spec() -> bool {
        true
    }

    open spec fn partial_cmp_spec(&self, other: &Self) -> Option<core::cmp::Ordering> {
        if self.count < other.count {
            Some(core::cmp::Ordering::Less)
        } else if self.count == other.count {
            Some(core::cmp::Ordering::Equal)
        } else {
            Some(core::cmp::Ordering::Greater)
        }
    }
}

} // verus!
