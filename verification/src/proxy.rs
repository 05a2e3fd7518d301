//! Questions to the oil catalogue: which links are asked, and the token that
//! its pages carry.
use crate::digits;
use crate::failure;
use crate::failure::{fail, Failure, Status};
use crate::outside;
use crate::text;
use vstd::prelude::*;
use vstd::string::*;

verus! {

/// A text as it stands in a link.
pub open spec fn link_text(s: Seq<char>) -> Seq<char> {
    outside::percent_encoded(vstd::utf8::encode_utf8(s))
}

/// The question which variants a car comes in.
pub open spec fn variants_link(plate: Seq<char>, now: nat) -> Seq<char> {
    "https://www.mpmoil.ie/products/recommendation?license_plate="@ + link_text(plate) + "&_="@
        + digits::decimal(now)
}

/// The question which oil a variant takes.
pub open spec fn oil_link(token: Seq<char>, plate: Seq<char>, now: nat) -> Seq<char> {
    "https://www.mpmoil.ie/products/recommendation/cars/brand/model/"@ + link_text(token) + "/"@
        + link_text(plate) + "?_="@ + digits::decimal(now)
}

/// The plate to ask for.
pub fn step_a(plate: &str) -> (r: Result<String, Failure>)
    ensures
        failure::text_outcome(r) == if text::trimmed(plate@).len() == 0 {
            Err((Status::BadRequest, "plate is required"@))
        } else {
            Ok(text::trimmed(plate@))
        },
        failure::text_outcome(r) == plate_asked(plate@),
{
    let plate = text::trim(plate);
    if plate.as_str().is_empty() {
        return Err(fail(Status::BadRequest, "plate is required"));
    }
    Ok(plate)
}

pub fn step_a_link(plate: &str, now: u128) -> (r: String)
    ensures
        r@ == variants_link(plate@, now as nat),
{
    let mut link = "https://www.mpmoil.ie/products/recommendation?license_plate=".to_owned();
    link.append(outside::encode_link(plate).as_str());
    link.append("&_=");
    link.append(digits::number_text(now).as_str());
    link
}

/// The plate and the token to ask for.
pub fn step_b(plate: &str, token: &str) -> (r: Result<(String, String), Failure>)
    ensures
        match r {
            Ok(both) => both.0@ == text::trimmed(plate@) && both.1@ == text::trimmed(token@)
                && both.0@.len() > 0 && both.1@.len() > 0,
            Err(f) => f@ == (Status::BadRequest, "plate and token are required"@) && (text::trimmed(
                plate@,
            ).len() == 0 || text::trimmed(token@).len() == 0),
        },
        match r {
            Ok(both) => variant_asked(plate@, token@) == Ok::<
                (Seq<char>, Seq<char>),
                (Status, Seq<char>),
            >((both.0@, both.1@)),
            Err(f) => variant_asked(plate@, token@) == Err::<
                (Seq<char>, Seq<char>),
                (Status, Seq<char>),
            >(f@),
        },
{
    let plate = text::trim(plate);
    let token = text::trim(token);
    if plate.as_str().is_empty() || token.as_str().is_empty() {
        return Err(fail(Status::BadRequest, "plate and token are required"));
    }
    Ok((plate, token))
}

pub fn step_b_link(token: &str, plate: &str, now: u128) -> (r: String)
    ensures
        r@ == oil_link(token@, plate@, now as nat),
{
    let mut link = "https://www.mpmoil.ie/products/recommendation/cars/brand/model/".to_owned();
    link.append(outside::encode_link(token).as_str());
    link.append("/");
    link.append(outside::encode_link(plate).as_str());
    link.append("?_=");
    link.append(digits::number_text(now).as_str());
    link
}

/// The pattern of the token in a page.
pub open spec fn csrf_pattern() -> Seq<char> {
    "name=\"csrf-token\" content=\"([^\"]+)\""@
}

/// The token, given what the search for it found.
pub open spec fn csrf_from(found: Result<Option<Seq<char>>, Seq<char>>) -> Result<
    Seq<char>,
    (Status, Seq<char>),
> {
    match found {
        Ok(Some(token)) => Ok(token),
        Ok(None) => Err((Status::BadGateway, "csrf token not found"@)),
        Err(message) => Err((Status::Internal, message)),
    }
}

/// The token, given what the search for it found.
pub fn found_csrf(found: Result<Option<String>, String>) -> (r: Result<String, Failure>)
    ensures
        failure::text_outcome(r) == csrf_from(outside::group_view(found)),
{
    match found {
        Ok(Some(token)) => Ok(token),
        Ok(None) => Err(fail(Status::BadGateway, "csrf token not found")),
        Err(message) => Err(fail(Status::Internal, message.as_str())),
    }
}

/// The token that a page of the catalogue carries.
pub fn fetch_csrf(html: &str) -> (r: Result<String, Failure>)
    ensures
        failure::text_outcome(r) == csrf_from(outside::first_group(csrf_pattern(), html@)),
{
    found_csrf(
        outside::capture_first_group("name=\"csrf-token\" content=\"([^\"]+)\"", html),
    )
}

/// Where the catalogue is asked for the variants of a plate.
pub proof fn law_variants_link(plate: Seq<char>, now: nat)
    ensures
        variants_link(plate, now)
            == "https://www.mpmoil.ie/products/recommendation?license_plate="@
            + outside::percent_encoded(vstd::utf8::encode_utf8(plate)) + seq!['&', '_', '=']
            + digits::decimal(now),
{
    reveal_strlit("&_=");
    assert("&_="@ =~= seq!['&', '_', '=']);
}

/// Where the catalogue is asked for a variant: its token first, then the plate.
pub proof fn law_oil_link(token: Seq<char>, plate: Seq<char>, now: nat)
    ensures
        oil_link(token, plate, now)
            == "https://www.mpmoil.ie/products/recommendation/cars/brand/model/"@
            + outside::percent_encoded(vstd::utf8::encode_utf8(token)) + seq!['/']
            + outside::percent_encoded(vstd::utf8::encode_utf8(plate)) + seq!['?', '_', '=']
            + digits::decimal(now),
{
    reveal_strlit("?_=");
    reveal_strlit("/");
    assert("?_="@ =~= seq!['?', '_', '=']);
    assert("/"@ =~= seq!['/']);
}

/// What comes of the search for a page's token: the token; that there is none;
/// that the search failed, and why.
pub proof fn law_csrf(token: Seq<char>, message: Seq<char>)
    ensures
        csrf_from(Ok(Some(token))) == Ok::<Seq<char>, (Status, Seq<char>)>(token),
        csrf_from(Ok(None)) == Err::<Seq<char>, (Status, Seq<char>)>(
            (Status::BadGateway, "csrf token not found"@),
        ),
        csrf_from(Err(message)) == Err::<Seq<char>, (Status, Seq<char>)>(
            (Status::Internal, message),
        ),
        csrf_pattern() == "name=\"csrf-token\" content=\"([^\"]+)\""@,
{
}

/// The plate for which variants are asked.
pub open spec fn plate_asked(plate: Seq<char>) -> Result<Seq<char>, (Status, Seq<char>)> {
    if text::trimmed(plate).len() == 0 {
        Err((Status::BadRequest, "plate is required"@))
    } else {
        Ok(text::trimmed(plate))
    }
}

/// The plate and the token for which a variant is asked.
pub open spec fn variant_asked(plate: Seq<char>, token: Seq<char>) -> Result<
    (Seq<char>, Seq<char>),
    (Status, Seq<char>),
> {
    if text::trimmed(plate).len() == 0 || text::trimmed(token).len() == 0 {
        Err((Status::BadRequest, "plate and token are required"@))
    } else {
        Ok((text::trimmed(plate), text::trimmed(token)))
    }
}

/// What is asked for is what was sent, without the space around it; a blank is
/// refused.
pub proof fn law_asked(plate: Seq<char>, token: Seq<char>)
    ensures
        plate_asked(plate) is Err <==> text::trimmed(plate).len() == 0,
        plate_asked(plate) matches Ok(s) ==> s == text::trimmed(plate),
        plate_asked(plate) matches Err(e) ==> e == (Status::BadRequest, "plate is required"@),
        variant_asked(plate, token) is Err <==> plate_asked(plate) is Err || plate_asked(
            token,
        ) is Err,
        variant_asked(plate, token) matches Ok(p) ==> plate_asked(plate) == Ok::<
            Seq<char>,
            (Status, Seq<char>),
        >(p.0) && plate_asked(token) == Ok::<Seq<char>, (Status, Seq<char>)>(p.1),
        variant_asked(plate, token) matches Err(e) ==> e == (
            Status::BadRequest,
            "plate and token are required"@,
        ),
{
}

} // verus!
