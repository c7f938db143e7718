//! Per-instance tracker settings and the custom-field extractor: a
//! configured field name resolves either to a well-known structured
//! attribute or to an entry of the provider-specific custom-field bag.

use vstd::prelude::*;

use crate::authentication::{Access, AccessV};
use crate::dates::{
    spec_decimal, spec_decimal2, spec_parse_date, decimal_string, decimal2_string, parse_date,
    Date,
};
use crate::jira_types::{bag_view, opt_view, FieldValue, FieldValueV, IssueBean};
use crate::text::{chars_to_string, clone_opt_string, clone_string_pairs, str_eq};

verus! {

/// Parameters of one paged search query.
#[derive(Debug)]
pub struct SearchGetParams {
    pub jql: String,
    pub start_at: Option<u64>,
    pub max_results: Option<u64>,
    pub validate_query: Option<bool>,
    pub fields: Option<Vec<String>>,
    pub expand: Option<Vec<String>>,
}

impl SearchGetParams {
    /// A query over the given search expression, with every refinement left
    /// unset.
    pub fn new(jql: &str) -> (r: Self)
        ensures
            r.jql@ == jql@,
            r.start_at is None,
            r.max_results is None,
            r.validate_query is None,
            r.fields is None,
            r.expand is None,
    {
        SearchGetParams {
            jql: jql.to_owned(),
            start_at: None,
            max_results: None,
            validate_query: None,
            fields: None,
            expand: None,
        }
    }
}

/// The name of one configured custom field.
#[derive(Debug)]
pub struct CustomField {
    pub name: String,
}

impl Clone for CustomField {
    fn clone(&self) -> (r: Self)
        ensures
            r.name@ == self.name@,
    {
        CustomField { name: self.name.clone() }
    }
}

/// Which custom field of an instance carries each of the values the reports
/// read.
#[derive(Debug)]
pub struct IssueCustomFieldsConfig {
    pub reason: CustomField,
    pub epic_link: CustomField,
    pub epic_name: CustomField,
    pub planned_start: CustomField,
    pub planned_end: CustomField,
}

#[verifier::ext_equal]
pub struct FieldsConfigV {
    pub reason: Seq<char>,
    pub epic_link: Seq<char>,
    pub epic_name: Seq<char>,
    pub planned_start: Seq<char>,
    pub planned_end: Seq<char>,
}

impl View for IssueCustomFieldsConfig {
    type V = FieldsConfigV;

    open spec fn view(&self) -> FieldsConfigV {
        FieldsConfigV {
            reason: self.reason.name@,
            epic_link: self.epic_link.name@,
            epic_name: self.epic_name.name@,
            planned_start: self.planned_start.name@,
            planned_end: self.planned_end.name@,
        }
    }
}

impl Clone for IssueCustomFieldsConfig {
    fn clone(&self) -> (r: Self)
        ensures
            r@ == self@,
    {
        let r = IssueCustomFieldsConfig {
            reason: self.reason.clone(),
            epic_link: self.epic_link.clone(),
            epic_name: self.epic_name.clone(),
            planned_start: self.planned_start.clone(),
            planned_end: self.planned_end.clone(),
        };
        proof {
            assert(r@ =~= self@);
        }
        r
    }
}

/// One configured tracker instance, as the assembly engine sees it: its
/// endpoint, credentials, custom-field configuration, and the per-instance
/// remap of relation vocabulary.
#[derive(Debug)]
pub struct JiraServer {
    /// The instance's endpoint; also the instance's identity wherever issues
    /// of several instances meet.
    pub base_url: String,
    pub access: Access,
    pub custom_fields: IssueCustomFieldsConfig,
    /// Pairs `(provider term, normalized term)`: a raw link-type wording
    /// whose first match rewrites it before classification.
    pub relations_map: Vec<(String, String)>,
}

#[verifier::ext_equal]
pub struct JiraServerV {
    pub base_url: Seq<char>,
    pub access: AccessV,
    pub custom_fields: FieldsConfigV,
    pub relations_map: Seq<(Seq<char>, Seq<char>)>,
}

/// The view of a relation-vocabulary remap table.
pub open spec fn pairs_view(s: Seq<(String, String)>) -> Seq<(Seq<char>, Seq<char>)> {
    s.map_values(|p: (String, String)| (p.0@, p.1@))
}

impl View for JiraServer {
    type V = JiraServerV;

    open spec fn view(&self) -> JiraServerV {
        JiraServerV {
            base_url: self.base_url@,
            access: self.access@,
            custom_fields: self.custom_fields@,
            relations_map: pairs_view(self.relations_map@),
        }
    }
}

impl Clone for JiraServer {
    fn clone(&self) -> (r: Self)
        ensures
            r@ == self@,
    {
        let r = JiraServer {
            base_url: self.base_url.clone(),
            access: self.access.clone(),
            custom_fields: self.custom_fields.clone(),
            relations_map: clone_string_pairs(&self.relations_map),
        };
        proof {
            assert(r@ =~= self@);
        }
        r
    }
}

/// How a retrieved comment is shown: as a plain-text rendering or
/// serialized.
#[derive(Clone, Copy, PartialEq, Eq, Structural, Debug)]
pub enum CommentPrinter {
    Email,
    Serde(crate::printer::SerdePrinter),
}

/// How a retrieved issue is shown: as a plain-text rendering or serialized.
#[derive(Clone, Copy, PartialEq, Eq, Structural, Debug)]
pub enum IssuePrinter {
    Email,
    Serde(crate::printer::SerdePrinter),
}

impl IssuePrinter {
    /// The printer a command-line argument names, if any.
    pub fn of_str(s: &str) -> (r: Option<IssuePrinter>)
        ensures
            (r == Some(IssuePrinter::Email)) == (s@ == "email"@),
    {
        if str_eq(s, "email") {
            Some(IssuePrinter::Email)
        } else {
            match crate::printer::SerdePrinter::of_str(s) {
                Some(p) => Some(IssuePrinter::Serde(p)),
                None => None,
            }
        }
    }
}

impl std::str::FromStr for IssuePrinter {
    type Err = String;

    fn from_str(s: &str) -> Result<Self, Self::Err> {
        match Self::of_str(s) {
            Some(v) => Ok(v),
            None => Err("Unknown printer variant".to_owned()),
        }
    }
}

/// Why a custom-field resolution failed. Absence of a field is not an
/// error; only a present value of the wrong shape is.
#[derive(Clone, Copy, PartialEq, Eq, Structural, Debug)]
pub enum FieldError {
    /// The field is present but its value is not of the requested shape.
    TypeMismatch,
    /// The field's string value does not name a calendar day.
    InvalidDate,
}

/// First entry of a custom-field bag under the given name.
pub open spec fn spec_bag_get(bag: Seq<(Seq<char>, FieldValueV)>, name: Seq<char>) -> Option<
    FieldValueV,
>
    decreases bag.len(),
{
    if bag.len() == 0 {
        None
    } else if bag[0].0 == name {
        Some(bag[0].1)
    } else {
        spec_bag_get(bag.drop_first(), name)
    }
}

/// What resolving a field name on an issue yields, as a string: well-known
/// synthetic names read structured attributes, any other name is looked up
/// in the custom-field bag. `Ok(None)` means the field is absent; a present
/// value of a non-string shape is a type mismatch.
pub open spec fn spec_field_of(name: Seq<char>, issue: crate::jira_types::IssueBeanV) -> Result<
    Option<Seq<char>>,
    FieldError,
> {
    if name == "summary"@ {
        Ok(Some(issue.fields.summary))
    } else if name == "description"@ {
        Ok(issue.fields.description)
    } else if name == "key"@ {
        Ok(Some(issue.key))
    } else if name == "id"@ {
        Ok(Some(issue.id))
    } else if name == "issuetype.name"@ {
        Ok(issue.fields.issuetype_name)
    } else {
        match spec_bag_get(issue.fields.custom_fields, name) {
            None => Ok(None),
            Some(FieldValueV::Null) => Ok(None),
            Some(FieldValueV::Text(s)) => Ok(Some(s)),
            Some(FieldValueV::Other) => Err(FieldError::TypeMismatch),
        }
    }
}

/// What resolving a field name as a date yields: the field's string value
/// parsed as a bare `YYYY-MM-DD` day. An absent field is `Ok(None)`; a
/// present string that names no day is an error.
pub open spec fn spec_date_of(name: Seq<char>, issue: crate::jira_types::IssueBeanV) -> Result<
    Option<Date>,
    FieldError,
> {
    match spec_field_of(name, issue) {
        Err(e) => Err(e),
        Ok(None) => Ok(None),
        Ok(Some(s)) => match spec_parse_date(s) {
            Some(d) => Ok(Some(d)),
            None => Err(FieldError::InvalidDate),
        },
    }
}

/// First entry of the custom-field bag under the given name.
fn bag_get<'a>(bag: &'a Vec<(String, FieldValue)>, name: &str) -> (r: Option<&'a FieldValue>)
    ensures
        match r {
            Some(v) => spec_bag_get(bag_view(bag@), name@) == Some(v@),
            None => spec_bag_get(bag_view(bag@), name@) is None,
        },
{
    proof {
        assert(bag_view(bag@).skip(0) =~= bag_view(bag@));
    }
    let mut i: usize = 0;
    while i < bag.len()
        invariant
            i <= bag@.len(),
            forall|j: int| 0 <= j < i ==> bag_view(bag@)[j].0 != name@,
            spec_bag_get(bag_view(bag@), name@) == spec_bag_get(
                bag_view(bag@).skip(i as int),
                name@,
            ),
        decreases bag@.len() - i,
    {
        let (k, v) = &bag[i];
        if str_eq(k.as_str(), name) {
            proof {
                assert(bag_view(bag@).skip(i as int)[0] == bag_view(bag@)[i as int]);
            }
            return Some(v);
        }
        proof {
            assert(bag_view(bag@).skip(i as int).drop_first() =~= bag_view(bag@).skip(i + 1));
        }
        i += 1;
    }
    proof {
        assert(bag_view(bag@).skip(i as int) =~= Seq::<(Seq<char>, FieldValueV)>::empty());
    }
    None
}

impl CustomField {
    /// Resolves this field on the issue as a string value.
    pub fn of_issue(&self, issue: &IssueBean) -> (r: Result<Option<String>, FieldError>)
        ensures
            match r {
                Ok(o) => spec_field_of(self.name@, issue@) == Ok::<_, FieldError>(opt_view(o)),
                Err(e) => spec_field_of(self.name@, issue@) == Err::<Option<Seq<char>>, _>(e),
            },
    {
        if str_eq(self.name.as_str(), "summary") {
            Ok(Some(issue.fields.summary.clone()))
        } else if str_eq(self.name.as_str(), "description") {
            Ok(clone_opt_string(&issue.fields.description))
        } else if str_eq(self.name.as_str(), "key") {
            Ok(Some(issue.key.clone()))
        } else if str_eq(self.name.as_str(), "id") {
            Ok(Some(issue.id.clone()))
        } else if str_eq(self.name.as_str(), "issuetype.name") {
            Ok(clone_opt_string(&issue.fields.issuetype_name))
        } else {
            match bag_get(&issue.fields.custom_fields, self.name.as_str()) {
                None => Ok(None),
                Some(FieldValue::Null) => Ok(None),
                Some(FieldValue::Text(s)) => Ok(Some(s.clone())),
                Some(FieldValue::Other) => Err(FieldError::TypeMismatch),
            }
        }
    }

    /// Resolves this field on the issue as a calendar day.
    pub fn date_of_issue(&self, issue: &IssueBean) -> (r: Result<Option<Date>, FieldError>)
        ensures
            r == spec_date_of(self.name@, issue@),
    {
        match self.of_issue(issue) {
            Err(e) => Err(e),
            Ok(None) => Ok(None),
            Ok(Some(s)) => match parse_date(s.as_str()) {
                Some(d) => Ok(Some(d)),
                None => Err(FieldError::InvalidDate),
            },
        }
    }
}

/// The values of the configured custom fields, extracted from one issue.
#[derive(Debug)]
pub struct IssueCustomFields {
    pub reason: Option<String>,
    pub epic_link: Option<String>,
    pub epic_name: Option<String>,
    pub planned_start: Option<Date>,
    pub planned_end: Option<Date>,
}

#[verifier::ext_equal]
pub struct IssueCustomFieldsV {
    pub reason: Option<Seq<char>>,
    pub epic_link: Option<Seq<char>>,
    pub epic_name: Option<Seq<char>>,
    pub planned_start: Option<Date>,
    pub planned_end: Option<Date>,
}

impl View for IssueCustomFields {
    type V = IssueCustomFieldsV;

    open spec fn view(&self) -> IssueCustomFieldsV {
        IssueCustomFieldsV {
            reason: opt_view(self.reason),
            epic_link: opt_view(self.epic_link),
            epic_name: opt_view(self.epic_name),
            planned_start: self.planned_start,
            planned_end: self.planned_end,
        }
    }
}

impl Clone for IssueCustomFields {
    fn clone(&self) -> (r: Self)
        ensures
            r@ == self@,
    {
        let r = IssueCustomFields {
            reason: clone_opt_string(&self.reason),
            epic_link: clone_opt_string(&self.epic_link),
            epic_name: clone_opt_string(&self.epic_name),
            planned_start: self.planned_start,
            planned_end: self.planned_end,
        };
        proof {
            assert(r@ =~= self@);
        }
        r
    }
}

/// The rendering of an optional planning date: the day as `Y-MM-DD`, or a
/// question mark when unset.
pub open spec fn spec_format_date(d: Option<Date>) -> Seq<char> {
    match d {
        None => "?"@,
        Some(d) => spec_decimal(d.year as int) + seq!['-'] + spec_decimal2(d.month as int)
            + seq!['-'] + spec_decimal2(d.day as int),
    }
}

/// The planning window of an issue: start and end dates when either is
/// set, empty otherwise.
pub open spec fn spec_plan(cf: IssueCustomFieldsV) -> Seq<char> {
    if cf.planned_start is Some || cf.planned_end is Some {
        spec_format_date(cf.planned_start) + " - "@ + spec_format_date(cf.planned_end)
    } else {
        Seq::empty()
    }
}

/// Whether the planning dates a record carries are real calendar days.
pub open spec fn spec_plan_dates_wf(cf: IssueCustomFieldsV) -> bool {
    &&& (cf.planned_start matches Some(d) ==> d.wf())
    &&& (cf.planned_end matches Some(d) ==> d.wf())
}

/// Renders an optional planning date.
fn format_date(date: &Option<Date>) -> (r: String)
    requires
        date matches Some(d) ==> d.wf(),
    ensures
        r@ == spec_format_date(*date),
{
    match date {
        None => {
            let r = "?".to_owned();
            proof {
                reveal_strlit("?");
            }
            r
        },
        Some(d) => {
            let mut out = decimal_string(d.year as u32);
            out.push('-');
            let mut month = decimal2_string(d.month as u32);
            out.append(&mut month);
            out.push('-');
            let mut day = decimal2_string(d.day as u32);
            out.append(&mut day);
            proof {
                assert(out@ =~= spec_format_date(*date));
            }
            chars_to_string(&out)
        },
    }
}

impl IssueCustomFields {
    /// The planning window of this issue, rendered.
    pub fn plan(&self) -> (r: String)
        requires
            spec_plan_dates_wf(self@),
        ensures
            r@ == spec_plan(self@),
    {
        if self.planned_start.is_some() || self.planned_end.is_some() {
            let mut out = format_date(&self.planned_start);
            out.append(" - ");
            let end = format_date(&self.planned_end);
            out.append(end.as_str());
            proof {
                assert(out@ =~= spec_plan(self@));
            }
            out
        } else {
            String::new()
        }
    }
}

/// What extracting all configured custom fields from an issue yields: the
/// five resolutions in order, stopping at the first failure.
pub open spec fn spec_custom_fields_of(
    config: FieldsConfigV,
    issue: crate::jira_types::IssueBeanV,
) -> Result<IssueCustomFieldsV, FieldError> {
    match spec_field_of(config.reason, issue) {
        Err(e) => Err(e),
        Ok(reason) => match spec_field_of(config.epic_link, issue) {
            Err(e) => Err(e),
            Ok(epic_link) => match spec_field_of(config.epic_name, issue) {
                Err(e) => Err(e),
                Ok(epic_name) => match spec_date_of(config.planned_start, issue) {
                    Err(e) => Err(e),
                    Ok(planned_start) => match spec_date_of(config.planned_end, issue) {
                        Err(e) => Err(e),
                        Ok(planned_end) => Ok(
                            IssueCustomFieldsV {
                                reason,
                                epic_link,
                                epic_name,
                                planned_start,
                                planned_end,
                            },
                        ),
                    },
                },
            },
        },
    }
}

impl IssueCustomFields {
    /// Extracts the values of the instance's configured custom fields.
    pub fn of_issue(jira: &JiraServer, issue: &IssueBean) -> (r: Result<Self, FieldError>)
        ensures
            match r {
                Ok(cf) => spec_custom_fields_of(jira.custom_fields@, issue@) == Ok::<
                    _,
                    FieldError,
                >(cf@),
                Err(e) => spec_custom_fields_of(jira.custom_fields@, issue@) == Err::<
                    IssueCustomFieldsV,
                    _,
                >(e),
            },
    {
        let reason = match jira.custom_fields.reason.of_issue(issue) {
            Ok(v) => v,
            Err(e) => {
                return Err(e);
            },
        };
        let epic_link = match jira.custom_fields.epic_link.of_issue(issue) {
            Ok(v) => v,
            Err(e) => {
                return Err(e);
            },
        };
        let epic_name = match jira.custom_fields.epic_name.of_issue(issue) {
            Ok(v) => v,
            Err(e) => {
                return Err(e);
            },
        };
        let planned_start = match jira.custom_fields.planned_start.date_of_issue(issue) {
            Ok(v) => v,
            Err(e) => {
                return Err(e);
            },
        };
        let planned_end = match jira.custom_fields.planned_end.date_of_issue(issue) {
            Ok(v) => v,
            Err(e) => {
                return Err(e);
            },
        };
        let r = IssueCustomFields { reason, epic_link, epic_name, planned_start, planned_end };
        proof {
            assert(spec_custom_fields_of(jira.custom_fields@, issue@) matches Ok(v) && v =~= r@);
        }
        Ok(r)
    }
}

} // verus!
