use mosaic_bot::{
    avatar_source_url, check_parsed_url, chunk_ranges, is_allowed_host, merge_chunks, percentages_for_reads,
    progress_bar, push_decimal, render_status, start_job, str_ends_with, success_message,
    validate_image_url, Identity, JobError, ProgressCounter, Request, UploadJob,
};

fn identity(avatar: Option<&str>, default: &str) -> Identity {
    Identity { avatar_url: avatar.map(|a| a.to_string()), default_avatar_url: default.to_string() }
}

#[test]
fn million_bytes_in_tenths_report_ten_steps() {
    let reads = vec![100_000usize; 10];
    let p = percentages_for_reads(1_000_000, &reads);
    assert_eq!(p, vec![10, 20, 30, 40, 50, 60, 70, 80, 90, 100]);
    let mut job = UploadJob::new();
    for &q in &p {
        let e = job.tick(q);
        assert_eq!(e.keep_waiting, q < 100);
    }
    assert!(job.finish(&Ok("https://host/x.jpg".to_string())).is_some());
    assert!(job.edits() >= 1);
}

#[test]
fn uneven_reads_rise_strictly_to_full() {
    let reads = vec![1usize, 0, 2, 250, 3, 333, 0, 411];
    let p = percentages_for_reads(1000, &reads);
    assert_eq!(p, vec![25, 58, 100]);
    for w in p.windows(2) {
        assert!(w[0] < w[1]);
    }
    assert_eq!(*p.last().unwrap(), 100);
}

#[test]
fn partial_read_stops_short_of_full() {
    let p = percentages_for_reads(3, &vec![1usize, 1]);
    assert_eq!(p, vec![33, 66]);
    assert!(percentages_for_reads(5, &vec![]).is_empty());
}

#[test]
fn counter_reports_each_percent_once() {
    let mut c = ProgressCounter::new(1000);
    for _ in 0..9 {
        assert_eq!(c.record(1), None);
    }
    assert_eq!(c.record(1), Some(1));
    assert_eq!(c.record(0), None);
    assert_eq!(c.record(990), Some(100));
    assert_eq!(c.bytes_read_so_far(), 1000);
    assert_eq!(c.total_bytes(), 1000);
    assert_eq!(c.percent(), 100);
}

#[test]
fn status_text_at_start_middle_and_end() {
    assert_eq!(render_status(0), "Uploading image\n░░░░░░░░░░░░░░░ 0%");
    assert_eq!(render_status(50), "Uploading image\n███████░░░░░░░░ 50%");
    assert_eq!(render_status(100), "Uploading image\n███████████████ 100%");
    assert_eq!(progress_bar(7), "█░░░░░░░░░░░░░░");
    assert_eq!(progress_bar(6), "░░░░░░░░░░░░░░░");
    assert_eq!(progress_bar(99).chars().count(), 15);
}

#[test]
fn decimal_digits() {
    let mut s = String::from("n=");
    push_decimal(&mut s, 255);
    assert_eq!(s, "n=255");
    let mut t = String::new();
    push_decimal(&mut t, 7);
    push_decimal(&mut t, 40);
    assert_eq!(t, "740");
}

#[test]
fn foreign_host_is_refused_without_download() {
    let r = validate_image_url("https://example.com/cat.png");
    assert_eq!(r, Err(JobError::NotDiscordHosted));
    assert_eq!(r.unwrap_err().message(), "You can only use discord hosted images");
    let req = Request::Image { url: "https://evil.org/discordapp.com.png".to_string() };
    assert_eq!(start_job(&req, &identity(None, "d")), Err(JobError::NotDiscordHosted));
}

#[test]
fn malformed_link_is_invalid() {
    assert_eq!(validate_image_url("not a url"), Err(JobError::InvalidUrl));
    assert_eq!(JobError::InvalidUrl.message(), "Invalid url");
    let req = Request::Image { url: "://".to_string() };
    assert_eq!(start_job(&req, &identity(None, "d")), Err(JobError::InvalidUrl));
}

#[test]
fn link_without_host_is_refused() {
    assert_eq!(validate_image_url("data:text/plain,x"), Err(JobError::NotDiscordHosted));
}

#[test]
fn trusted_hosts_are_accepted() {
    assert_eq!(validate_image_url("https://cdn.discordapp.com/attachments/1/2/a.png"), Ok(()));
    assert_eq!(validate_image_url("https://media.discordapp.net/a.png"), Ok(()));
    let req = Request::Image { url: "https://cdn.discordapp.com/a.png".to_string() };
    assert_eq!(start_job(&req, &identity(None, "d")), Ok("https://cdn.discordapp.com/a.png".to_string()));
}

#[test]
fn parsed_host_verdicts() {
    assert_eq!(check_parsed_url(&None), Err(JobError::InvalidUrl));
    assert_eq!(check_parsed_url(&Some(None)), Err(JobError::NotDiscordHosted));
    assert_eq!(check_parsed_url(&Some(Some("discordapp.com".to_string()))), Ok(()));
    assert_eq!(check_parsed_url(&Some(Some("discordapp.org".to_string()))), Err(JobError::NotDiscordHosted));
    assert!(is_allowed_host("images.discordapp.net"));
    assert!(!is_allowed_host("discordapp.net.example"));
}

#[test]
fn suffix_test() {
    assert!(str_ends_with("abcdef", "def"));
    assert!(str_ends_with("abc", ""));
    assert!(!str_ends_with("ef", "def"));
    assert!(!str_ends_with("abcdxf", "def"));
}

#[test]
fn avatar_without_target_falls_back_to_default() {
    let me = identity(None, "https://cdn.discordapp.com/embed/avatars/3.png");
    let req = Request::Avatar { target: None };
    assert_eq!(start_job(&req, &me), Ok("https://cdn.discordapp.com/embed/avatars/3.png".to_string()));
    assert_eq!(avatar_source_url(None, &me), "https://cdn.discordapp.com/embed/avatars/3.png");
}

#[test]
fn avatar_is_asked_for_as_png() {
    let me = identity(Some("https://cdn.discordapp.com/avatars/1/abc.webp?size=1024"), "d.png");
    assert_eq!(avatar_source_url(None, &me), "https://cdn.discordapp.com/avatars/1/abc.png?size=1024");
    let other = identity(Some("https://cdn/webpwebp.webp"), "o.png");
    assert_eq!(avatar_source_url(Some(&other), &me), "https://cdn/pngpng.png");
    let bare = identity(None, "https://cdn/default.webp");
    let req = Request::Avatar { target: Some(bare) };
    assert_eq!(start_job(&req, &me), Ok("https://cdn/default.png".to_string()));
}

#[test]
fn one_final_edit_per_job() {
    let mut job = UploadJob::new();
    for p in [0u8, 0, 40, 100] {
        job.tick(p);
    }
    assert_eq!(job.ticks(), 4);
    assert!(!job.is_finished());
    let m = job.finish(&Ok("https://files/x.jpg".to_string())).unwrap();
    assert_eq!(m.content, "Here is your image!");
    assert_eq!(m.embed_url, Some("https://files/x.jpg".to_string()));
    assert!(job.finish(&Err(JobError::UploadFailed)).is_none());
    assert_eq!(job.edits(), job.ticks() + 1);
    assert!(job.is_finished());
}

#[test]
fn failed_job_gets_error_as_final_edit() {
    let mut job = UploadJob::new();
    let m = job.finish(&Err(JobError::DownloadFailed)).unwrap();
    assert_eq!(m.content, "Could not download image");
    assert_eq!(m.embed_url, None);
    assert_eq!(job.edits(), 1);
    assert_eq!(job.ticks(), 0);
    let mut up = UploadJob::new();
    up.tick(30);
    assert_eq!(up.finish(&Err(JobError::UploadFailed)).unwrap().content, "Could not upload image result");
    assert_eq!(up.edits(), 2);
}

#[test]
fn error_texts() {
    assert_eq!(JobError::DownloadFailed.message(), "Could not download image");
    assert_eq!(JobError::TransformFailed.message(), "Could not transform image");
    assert_eq!(JobError::UploadFailed.message(), "Could not upload image result");
    assert_eq!(success_message(), "Here is your image!");
}

#[test]
fn chunks_split_with_remainder_last() {
    assert_eq!(chunk_ranges(10, 3), vec![(0, 3), (3, 6), (6, 10)]);
    assert_eq!(chunk_ranges(2, 4), vec![(0, 0), (0, 0), (0, 0), (0, 2)]);
    assert_eq!(chunk_ranges(0, 1), vec![(0, 0)]);
    let r = chunk_ranges(1001, 8);
    assert_eq!(r.len(), 8);
    assert_eq!(r[0].0, 0);
    assert_eq!(r[7].1, 1001);
    for w in r.windows(2) {
        assert_eq!(w[0].1, w[1].0);
    }
}

#[test]
fn merge_keeps_every_successful_tile() {
    let ok = vec![true, false, true, true, false, false, true, true, false, true];
    assert_eq!(merge_chunks(3, &ok), vec![0, 2, 3, 6, 7, 9]);
    assert_eq!(merge_chunks(16, &ok), vec![0, 2, 3, 6, 7, 9]);
    assert_eq!(merge_chunks(1, &vec![false, false]), Vec::<usize>::new());
    assert_eq!(merge_chunks(4, &vec![]), Vec::<usize>::new());
}
