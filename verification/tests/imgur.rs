use link_titles::imgur::{
    image_body, preferred_link, preferred_size, render_gallery, render_image, ImgurError,
};
use link_titles::json::{Json, JsonNumber, Member};
use serde_json::Value;

const STRAIGHT_IMAGE: &str = r#"
    {"data":{"id":"TUgcjTQ","title":null,"description":null,"datetime":1517869892,
    "type":"image\/jpeg","animated":false,"width":470,"height":334,"size":12828,
    "views":443,"bandwidth":5682804,"vote":null,"favorite":false,"nsfw":false,
    "section":null,"account_url":null,"account_id":null,"is_ad":false,
    "in_most_viral":false,"has_sound":false,"tags":[],"ad_type":0,"ad_url":"",
    "in_gallery":false,"link":"https:\/\/i.imgur.com\/TUgcjTQ.jpg"},
    "success":true,"status":200}"#;

const IMAGE_WITH_SECTION: &str = r#"
    {"data":{"id":"zEG4ULo","title":null,"description":null,"datetime":1523881468,
    "type":"image\/jpeg","animated":false,"width":640,"height":799,"size":99578,
    "views":1029990,"bandwidth":102564344220,"vote":null,"favorite":false,"nsfw":false,
    "section":"pics","account_url":null,"account_id":null,"is_ad":false,
    "in_most_viral":false,"has_sound":false,"tags":[],"ad_type":0,"ad_url":"",
    "in_gallery":false,"link":"https:\/\/i.imgur.com\/zEG4ULo.jpg"},
    "success":true,"status":200}
"#;

const IMAGE_WITH_TITLE: &str = r#"
    {"data":{"id":"PmSOx4H",
    "title":"My army is ready, we attack at nightfall",
    "description":null,"datetime":1523954060,
    "type":"image\/jpeg","animated":false,"width":720,"height":540,"size":33292,
    "views":65040,"bandwidth":2165311680,"vote":null,"favorite":false,"nsfw":false,
    "section":"pics","account_url":null,"account_id":null,"is_ad":false,
    "in_most_viral":false,"has_sound":false,"tags":[],"ad_type":0,"ad_url":"",
    "in_gallery":true,"link":"https:\/\/i.imgur.com\/PmSOx4H.jpg"},
    "success":true,"status":200}
"#;

const VIDEO_WITH_DESCRIPTION: &str = r##"
    {"data":{"id":"SRup0KZ",
    "title":null,"description":"#dolphinsandshit","datetime":1523933676,
    "type":"image\/gif","animated":true,"width":667,"height":500,"size":68422159,
    "views":920699,"bandwidth":62996213369141,"vote":null,"favorite":false,"nsfw":false,
    "section":"awesomenature","account_url":null,"account_id":null,"is_ad":false,
    "in_most_viral":false,"has_sound":false,"tags":[],"ad_type":0,"ad_url":"",
    "in_gallery":false,"link":"http:\/\/i.imgur.com\/SRup0KZh.gif",
    "mp4":"https:\/\/i.imgur.com\/SRup0KZ.mp4","gifv":"https:\/\/i.imgur.com\/SRup0KZ.gifv",
    "mp4_size":8642558,"looping":true},
    "success":true,"status":200}
"##;

const SINGLE_IMAGE_ALBUM: &str = r##"
    {"data":{"id":"rTV6u","title":"Branch manager and Assistant Branch manager",
    "description":null,"datetime":1523747874,
    "cover":"tUulJaV","cover_width":640,"cover_height":770,
    "account_url":null,"account_id":null,"privacy":"hidden","layout":"blog",
    "views":141192,"link":"https:\/\/imgur.com\/a\/rTV6u","favorite":false,"nsfw":null,
    "section":null,"images_count":1,"in_gallery":true,"is_ad":false,
    "images":[{
        "id":"tUulJaV","title":null,"description":null,"datetime":1523747876,
        "type":"image\/jpeg","animated":false,"width":640,"height":770,"size":89545,
        "views":113562,"bandwidth":10168909290,"vote":null,"favorite":false,"nsfw":null,
        "section":null,"account_url":null,"account_id":null,"is_ad":false,
        "in_most_viral":false,"has_sound":false,"tags":[],"ad_type":0,"ad_url":"",
        "in_gallery":false,"link":"https:\/\/i.imgur.com\/tUulJaV.jpg"}]},
    "success":true,"status":200}
"##;

const SINGLE_IMAGE_ANIMATED: &str = r##"
    {"data":{"id":"nRuZwtp","title":"Bango cat","description":null,"datetime":1543508604,
    "cover":"KbVOQOm","cover_width":580,"cover_height":580,"account_url":"ctilic12110",
    "account_id":98180053,"privacy":"public","layout":"blog","views":599,
    "link":"https:\/\/imgur.com\/a\/nRuZwtp","favorite":false,"nsfw":null,"section":null,
    "images_count":1,"in_gallery":true,"is_ad":false,"include_album_ads":false,
    "images":[{"id":"KbVOQOm","title":null,"description":null,"datetime":1543508602,
    "type":"image\/gif","animated":true,"width":580,"height":580,"size":1812159,"views":1820,
    "bandwidth":3298129380,"vote":null,"favorite":false,"nsfw":null,"section":null,
    "account_url":null,"account_id":null,"is_ad":false,"in_most_viral":false,"has_sound":false,
    "tags":[],"ad_type":0,"ad_url":"","in_gallery":false,
    "link":"https:\/\/i.imgur.com\/KbVOQOm.gif","mp4":"https:\/\/i.imgur.com\/KbVOQOm.mp4",
    "gifv":"https:\/\/i.imgur.com\/KbVOQOm.gifv","hls":"https:\/\/i.imgur.com\/KbVOQOm.m3u8",
    "mp4_size":1304498,"looping":true,"processing":{"status":"completed"}}]},"success":true,
    "status":200}
"##;

const MULTI_IMAGE_ALBUM: &str = r##"
    {"data":{"id":"mk0v7",
    "title":"Transformation Tuesday: went from 6xl to 3xl... still got ways to go. Thanks imgur",
    "description":null,"datetime":1524022042,
    "cover":"EtJ3EyI","cover_width":2048,"cover_height":2048,
    "account_url":null,"account_id":null,"privacy":"hidden","layout":"blog",
    "views":110124,"link":"https:\/\/imgur.com\/a\/mk0v7","favorite":false,"nsfw":null,
    "section":null,"images_count":2,"in_gallery":true,"is_ad":false,
    "images":[{
        "id":"EtJ3EyI","title":null,"description":"#transformation #weight_loss #motivation",
        "datetime":1524021941,"type":"image\/jpeg","animated":false,"width":2048,"height":2048,
        "size":368244,"views":98421,"bandwidth":36242942724,"vote":null,"favorite":false,
        "nsfw":null,"section":null,"account_url":null,"account_id":null,"is_ad":false,
        "in_most_viral":false,"has_sound":false,"tags":[],"ad_type":0,"ad_url":"",
        "in_gallery":false,"link":"https:\/\/i.imgur.com\/EtJ3EyI.jpg"
    },{
        "id":"HOny6VX","title":null,"description":null,"datetime":1524021936,
        "type":"image\/png","animated":false,"width":750,"height":1334,"size":519762,
        "views":97200,"bandwidth":50520866400,"vote":null,"favorite":false,"nsfw":null,
        "section":null,"account_url":null,"account_id":null,"is_ad":false,"in_most_viral":false,
        "has_sound":false,"tags":[],"ad_type":0,"ad_url":"","in_gallery":false,
        "link":"https:\/\/i.imgur.com\/HOny6VX.png"}]},
    "success":true,"status":200}
"##;

fn imgur_value(v: &Value) -> Json {
    match v {
        Value::Null => Json::Null,
        Value::Bool(b) => Json::Bool(*b),
        Value::Number(n) => Json::Number(JsonNumber {
            text: n.to_string(),
            unsigned: n.as_u64(),
            signed: n.as_i64(),
        }),
        Value::String(s) => Json::Text(s.clone()),
        Value::Array(a) => Json::Array(a.iter().map(imgur_value).collect()),
        Value::Object(o) => {
            Json::Object(
            o.iter()
                .map(|(k, v)| Member {
                    name: k.clone(),
                    value: imgur_value(v),
                    written: serde_json::to_string(v).unwrap(),
                })
                .collect(),
        )
        }
    }
}

fn json(val: &'static str) -> Json {
    imgur_value(&serde_json::from_str(val).unwrap())
}

#[test]
fn format_image() {
    assert_eq!(
        "470×334 12.5KiB sfw",
        render_image(&json(STRAIGHT_IMAGE)).unwrap()
    );

    assert_eq!(
        "640×799 97.2KiB /r/pics sfw",
        render_image(&json(IMAGE_WITH_SECTION)).unwrap()
    );

    assert_eq!(
        "720×540 32.5KiB /r/pics sfw ፤ My army is ready, we attack at nightfall",
        render_image(&json(IMAGE_WITH_TITLE)).unwrap()
    );

    assert_eq!(
        "667×500 8.2MiB /r/awesomenature sfw ፤ #dolphinsandshit",
        render_image(&json(VIDEO_WITH_DESCRIPTION)).unwrap()
    );
}

#[test]
fn format_album() {
    assert_eq!(
        "https://i.imgur.com/tUulJaV.jpg ፤ 640×770 87.4KiB ?fw ፤ Branch manager and Assistant Branch manager",
        render_gallery(&json(SINGLE_IMAGE_ALBUM)).unwrap()
    );

    assert_eq!(
        "https://i.imgur.com/KbVOQOm.mp4 ፤ 580×580 1.2MiB ?fw ፤ Bango cat",
        render_gallery(&json(SINGLE_IMAGE_ANIMATED)).unwrap()
    );

    assert_eq!(
        "0/2 animated ፤ 867.2KiB ?fw ፤ Transformation Tuesday: went from 6xl to 3xl... still got ways to go. Thanks imgur",
        render_gallery(&json(MULTI_IMAGE_ALBUM)).unwrap()
    );
}

#[test]
fn image_from_scenario() {
    let resp = json(r#"{"data":{"width":470,"height":334,"size":12828,"nsfw":false}}"#);
    assert_eq!("470×334 12.5KiB sfw", render_image(&resp).unwrap());
}

#[test]
fn image_tags_tell_four_states_apart() {
    let tag = |nsfw: &str| {
        let text = format!(r#"{{"width":1,"height":2{}}}"#, nsfw);
        image_body(&imgur_value(&serde_json::from_str(&text).unwrap()), None).unwrap()
    };
    assert_eq!("1×2 NSFW", tag(r#","nsfw":true"#));
    assert_eq!("1×2 sfw", tag(r#","nsfw":false"#));
    assert_eq!("1×2 ?fw", tag(r#","nsfw":null"#));
    assert_eq!("1×2 ?fw", tag(r#","nsfw":"yes""#));
    assert_eq!("1×2 ¿fw", tag(""));
}

#[test]
fn image_caption_precedence() {
    let both = json(r#"{"width":1,"height":2,"title":"T","description":"D"}"#);
    assert_eq!("1×2 ¿fw ፤ T", image_body(&both, Some("H")).unwrap());
    let described = json(r#"{"width":1,"height":2,"title":null,"description":"D"}"#);
    assert_eq!("1×2 ¿fw ፤ H", image_body(&described, Some("H")).unwrap());
    assert_eq!("1×2 ¿fw ፤ D", image_body(&described, None).unwrap());
    let bare = json(r#"{"width":1,"height":2}"#);
    assert_eq!("1×2 ¿fw", image_body(&bare, None).unwrap());
}

#[test]
fn image_size_precedence() {
    let all = json(r#"{"mp4_size":1,"webm_size":2,"size":3}"#);
    assert_eq!(Some(1), preferred_size(&all));
    let two = json(r#"{"mp4_size":null,"webm_size":2,"size":3}"#);
    assert_eq!(Some(2), preferred_size(&two));
    let one = json(r#"{"webm_size":"big","size":3}"#);
    assert_eq!(Some(3), preferred_size(&one));
    assert_eq!(None, preferred_size(&json(r#"{"size":-3}"#)));
    assert_eq!(None, preferred_size(&json(r#"{}"#)));
}

#[test]
fn image_link_precedence() {
    assert_eq!(Ok("m"), preferred_link(&json(r#"{"mp4":"m","link":"l"}"#)));
    assert_eq!(Ok("l"), preferred_link(&json(r#"{"link":"l"}"#)));
    assert_eq!(
        Err(ImgurError::NoLink),
        preferred_link(&json(r#"{"mp4":null,"link":"l"}"#))
    );
    assert_eq!(Err(ImgurError::NoLink), preferred_link(&json(r#"{}"#)));
}

#[test]
fn image_errors() {
    assert_eq!(Err(ImgurError::MissingData), render_image(&json(r#"{"success":false}"#)));
    assert_eq!(Err(ImgurError::MissingData), render_image(&json(r#"[1]"#)));
    assert_eq!(
        Err(ImgurError::MissingWidth),
        render_image(&json(r#"{"data":{"height":2}}"#))
    );
    assert_eq!(
        Err(ImgurError::MissingHeight),
        render_image(&json(r#"{"data":{"width":2}}"#))
    );
}

#[test]
fn gallery_errors() {
    assert_eq!(Err(ImgurError::MissingData), render_gallery(&json(r#"{}"#)));
    assert_eq!(
        Err(ImgurError::MissingTitle),
        render_gallery(&json(r#"{"data":{"title":null,"images_count":1,"images":[]}}"#))
    );
    assert_eq!(
        Err(ImgurError::NoImageCount),
        render_gallery(&json(r#"{"data":{"title":"t","images":[]}}"#))
    );
    assert_eq!(
        Err(ImgurError::NoImageCount),
        render_gallery(&json(r#"{"data":{"title":"t","images_count":"2","images":[]}}"#))
    );
    assert_eq!(
        Err(ImgurError::NoImages),
        render_gallery(&json(r#"{"data":{"title":"t","images_count":2}}"#))
    );
    assert_eq!(
        Err(ImgurError::NoLink),
        render_gallery(&json(r#"{"data":{"title":"t","images_count":1,"images":[{"width":1,"height":1}]}}"#))
    );
    assert_eq!(
        Err(ImgurError::MissingWidth),
        render_gallery(&json(r#"{"data":{"title":"t","images_count":1,"images":[{"link":"l"}]}}"#))
    );
    assert_eq!(
        Err(ImgurError::MissingSize),
        render_gallery(&json(r#"{"data":{"title":"t","images_count":2,"images":[{"size":1},{}]}}"#))
    );
    assert_eq!(
        Err(ImgurError::SizeOverflow),
        render_gallery(&json(
            r#"{"data":{"title":"t","images_count":2,"images":[{"size":18446744073709551615},{"size":1}]}}"#
        ))
    );
}

#[test]
fn gallery_counts_animated_images() {
    let resp = json(
        r#"{"data":{"title":"t","nsfw":true,"images_count":3,"images":[
            {"size":1024,"animated":true},{"mp4_size":1024,"size":9,"animated":true},
            {"size":1024,"animated":"yes"}]}}"#,
    );
    assert_eq!("2/3 animated ፤ 3.0KiB NSFW ፤ t", render_gallery(&resp).unwrap());
    let empty = json(r#"{"data":{"title":"t","images_count":0,"images":[]}}"#);
    assert_eq!("0/0 animated ፤ 0 bytes ¿fw ፤ t", render_gallery(&empty).unwrap());
    let odd = json(
        r#"{"data":{"title":"t","images_count":1,"images":[{"size":1},{"size":2}]}}"#,
    );
    assert_eq!("0/2 animated ፤ 3 bytes ¿fw ፤ t", render_gallery(&odd).unwrap());
}

#[test]
fn image_shows_width_and_height_as_they_are_written() {
    let odd = json(r#"{"width":"wide","height":[1,null],"nsfw":true}"#);
    assert_eq!("\"wide\"×[1,null] NSFW", image_body(&odd, None).unwrap());
    let real = json(r#"{"width":1.5,"height":null}"#);
    assert_eq!("1.5×null ¿fw", image_body(&real, None).unwrap());
}
