use chat_archive::render::render;
use chat_archive::render::StyleKind;
use chat_archive::render::TextSpan;

fn span(offset: u32, length: u32, style: StyleKind) -> TextSpan {
    TextSpan { offset, length, style }
}

fn link_span(offset: u32, length: u32, url: &str) -> TextSpan {
    TextSpan {
        offset,
        length,
        style: StyleKind::TextLink { url: String::from(url) },
    }
}


#[test]
fn test_parse_formatted_text() {
    {
        let text = "\u{1F4B8} \u{41D}\u{430}\u{43B}\u{43E}\u{433}\u{438} \u{432} \u{418}\u{442}\u{430}\u{43B}\u{438}\u{438}\n\n\u{41C}\u{44B} \u{43F}\u{43E}\u{447}\u{442}\u{438} 3 \u{43C}\u{435}\u{441}\u{44F}\u{446}\u{430} \u{440}\u{43E}\u{436}\u{430}\u{43B}\u{438} \u{44D}\u{442}\u{43E}\u{442} \u{433}\u{430}\u{439}\u{434}. \u{41F}\u{438}\u{441}\u{430}\u{43B}\u{438}, \u{43F}\u{43E}\u{442}\u{43E}\u{43C} \u{43F}\u{435}\u{440}\u{435}\u{434}\u{435}\u{43B}\u{44B}\u{432}\u{430}\u{43B}\u{438} \u{437}\u{430}\u{43D}\u{43E}\u{432}\u{43E}. \u{411}\u{440}\u{430}\u{43B}\u{438} \u{43A}\u{43E}\u{43D}\u{441}\u{443}\u{43B}\u{44C}\u{442}\u{430}\u{446}\u{438}\u{438}, \u{440}\u{435}\u{434}\u{430}\u{43A}\u{442}\u{438}\u{440}\u{43E}\u{432}\u{430}\u{43B}\u{438} \u{441}\u{43D}\u{43E}\u{432}\u{430} \u{438} \u{432} \u{438}\u{442}\u{43E}\u{433}\u{435} \u{433}\u{43E}\u{442}\u{43E}\u{432}\u{44B} \u{43E}\u{442}\u{434}\u{430}\u{442}\u{44C} \u{432}\u{430}\u{43C} \u{442}\u{435}\u{43A}\u{443}\u{449}\u{443}\u{44E} \u{43E}\u{431}\u{437}\u{43E}\u{440}\u{43D}\u{443}\u{44E} \u{432}\u{435}\u{440}\u{441}\u{438}\u{44E} \u{43E}\u{441}\u{43D}\u{43E}\u{432}\u{43D}\u{44B}\u{445} \u{43D}\u{430}\u{43B}\u{43E}\u{433}\u{43E}\u{432} \u{432} \u{418}\u{442}\u{430}\u{43B}\u{438}\u{438}. \u{41E}\u{43D} \u{43D}\u{435} \u{438}\u{434}\u{435}\u{430}\u{43B}\u{435}\u{43D}, \u{43D}\u{43E} \u{443}\u{436}\u{435} \u{43F}\u{43E}\u{440}\u{430} \u{432}\u{44B}\u{43F}\u{443}\u{441}\u{442}\u{438}\u{442}\u{44C} \u{438} \u{434}\u{432}\u{438}\u{43D}\u{443}\u{442}\u{44C}\u{441}\u{44F} \u{434}\u{430}\u{43B}\u{44C}\u{448}\u{435}.\n\n\u{412} \u{43F}\u{43B}\u{430}\u{43D}\u{430}\u{445} \u{441}\u{434}\u{435}\u{43B}\u{430}\u{442}\u{44C} \u{435}\u{449}\u{435} \u{43D}\u{435}\u{441}\u{43A}\u{43E}\u{43B}\u{44C}\u{43A}\u{43E} \u{434}\u{435}\u{442}\u{430}\u{43B}\u{44C}\u{43D}\u{44B}\u{445} \u{433}\u{430}\u{439}\u{434}\u{43E}\u{432}. \u{411}\u{43E}\u{43B}\u{435}\u{435} \u{43F}\u{440}\u{430}\u{43A}\u{442}\u{438}\u{447}\u{43D}\u{44B}\u{445} \u{438} \u{441}\u{43F}\u{435}\u{446}\u{438}\u{430}\u{43B}\u{438}\u{437}\u{438}\u{440}\u{43E}\u{432}\u{430}\u{43D}\u{43D}\u{44B}\u{445}. \u{411}\u{43B}\u{430}\u{433}\u{43E} \u{443} \u{43D}\u{430}\u{441} \u{43F}\u{43E}\u{44F}\u{432}\u{438}\u{43B}\u{441}\u{44F} \u{447}\u{435}\u{43B}\u{43E}\u{432}\u{435}\u{43A}, \u{43A}\u{43E}\u{442}\u{43E}\u{440}\u{44B}\u{439} \u{430}\u{43A}\u{442}\u{438}\u{432}\u{43D}\u{43E} \u{437}\u{430}\u{43D}\u{438}\u{43C}\u{430}\u{435}\u{442}\u{441}\u{44F} \u{44D}\u{442}\u{438}\u{43C}.\n\n\u{1F517} \u{413}\u{430}\u{439}\u{434} \u{43F}\u{43E} \u{43D}\u{430}\u{43B}\u{43E}\u{433}\u{430}\u{43C}\n\n\u{413}\u{430}\u{439}\u{434} \u{43D}\u{430}\u{43F}\u{438}\u{441}\u{430}\u{43B} \u{441}\u{43E}\u{432}\u{43C}\u{435}\u{441}\u{442}\u{43D}\u{43E} \u{441} \u{43D}\u{430}\u{43C}\u{438} \u{410}\u{43B}\u{435}\u{43A}\u{441}\u{430}\u{43D}\u{434}\u{440}. \u{415}\u{441}\u{43B}\u{438} \u{443} \u{432}\u{430}\u{441} \u{435}\u{441}\u{442}\u{44C} \u{432}\u{43E}\u{43F}\u{440}\u{43E}\u{441}\u{44B} \u{438}\u{43B}\u{438} \u{436}\u{435}\u{43B}\u{430}\u{43D}\u{438}\u{435} \u{447}\u{442}\u{43E}-\u{442}\u{43E} \u{434}\u{43E}\u{431}\u{430}\u{432}\u{438}\u{442}\u{44C}, \u{441}\u{43E}\u{442}\u{440}\u{443}\u{434}\u{43D}\u{438}\u{447}\u{430}\u{442}\u{44C} \u{432} \u{44D}\u{442}\u{43E}\u{439} \u{43E}\u{431}\u{43B}\u{430}\u{441}\u{442}\u{438} \u{43D}\u{430}\u{43F}\u{438}\u{448}\u{438}\u{442}\u{435} \u{435}\u{43C}\u{443}.\n\n\u{416}\u{434}\u{451}\u{43C} \u{432}\u{430}\u{448}\u{438}\u{445} \u{43F}\u{440}\u{435}\u{434}\u{43B}\u{43E}\u{436}\u{435}\u{43D}\u{438}\u{439} \u{438} \u{437}\u{430}\u{43C}\u{435}\u{447}\u{430}\u{43D}\u{438}\u{439}, \u{43D}\u{430}\u{448}\u{430} \u{446}\u{435}\u{43B}\u{44C} \u{441}\u{43E}\u{441}\u{442}\u{430}\u{432}\u{438}\u{442}\u{44C} \u{441}\u{430}\u{43C}\u{44B}\u{439} \u{43F}\u{43E}\u{43D}\u{44F}\u{442}\u{43D}\u{44B}\u{439} \u{438} \u{434}\u{435}\u{442}\u{430}\u{43B}\u{44C}\u{43D}\u{44B}\u{439} \u{433}\u{430}\u{439}\u{434} \u{43F}\u{43E} \u{43D}\u{430}\u{43B}\u{43E}\u{433}\u{430}\u{43C}.\n\n\u{1F4AC} \u{41E}\u{431}\u{441}\u{443}\u{434}\u{438}\u{442}\u{44C} \u{43C}\u{43E}\u{436}\u{43D}\u{43E} \u{432} \u{447}\u{430}\u{442}\u{435}";
        let spans: Vec<TextSpan> = vec![
            TextSpan { offset: 3, length: 17, style: StyleKind::Bold },
            TextSpan { offset: 423, length: 15, style: StyleKind::TextLink { url: String::from("https://rutoitaly.ru/wiki/Imposte_e_tasse") } },
            TextSpan { offset: 423, length: 15, style: StyleKind::Bold },
            TextSpan { offset: 470, length: 10, style: StyleKind::TextLink { url: String::from("https://t.me/alx4039") } },
            TextSpan { offset: 577, length: 101, style: StyleKind::Italic },
            TextSpan { offset: 678, length: 2, style: StyleKind::CustomEmoji },
            TextSpan { offset: 681, length: 21, style: StyleKind::TextLink { url: String::from("https://t.me/rutoitalychat/13295/22683") } },
            TextSpan { offset: 681, length: 21, style: StyleKind::Italic },
        ];
        let expected = "   **\u{41D}\u{430}\u{43B}\u{43E}\u{433}\u{438} \u{432} \u{418}\u{442}\u{430}\u{43B}\u{438}\u{438}\n\n**\u{41C}\u{44B} \u{43F}\u{43E}\u{447}\u{442}\u{438} 3 \u{43C}\u{435}\u{441}\u{44F}\u{446}\u{430} \u{440}\u{43E}\u{436}\u{430}\u{43B}\u{438} \u{44D}\u{442}\u{43E}\u{442} \u{433}\u{430}\u{439}\u{434}. \u{41F}\u{438}\u{441}\u{430}\u{43B}\u{438}, \u{43F}\u{43E}\u{442}\u{43E}\u{43C} \u{43F}\u{435}\u{440}\u{435}\u{434}\u{435}\u{43B}\u{44B}\u{432}\u{430}\u{43B}\u{438} \u{437}\u{430}\u{43D}\u{43E}\u{432}\u{43E}. \u{411}\u{440}\u{430}\u{43B}\u{438} \u{43A}\u{43E}\u{43D}\u{441}\u{443}\u{43B}\u{44C}\u{442}\u{430}\u{446}\u{438}\u{438}, \u{440}\u{435}\u{434}\u{430}\u{43A}\u{442}\u{438}\u{440}\u{43E}\u{432}\u{430}\u{43B}\u{438} \u{441}\u{43D}\u{43E}\u{432}\u{430} \u{438} \u{432} \u{438}\u{442}\u{43E}\u{433}\u{435} \u{433}\u{43E}\u{442}\u{43E}\u{432}\u{44B} \u{43E}\u{442}\u{434}\u{430}\u{442}\u{44C} \u{432}\u{430}\u{43C} \u{442}\u{435}\u{43A}\u{443}\u{449}\u{443}\u{44E} \u{43E}\u{431}\u{437}\u{43E}\u{440}\u{43D}\u{443}\u{44E} \u{432}\u{435}\u{440}\u{441}\u{438}\u{44E} \u{43E}\u{441}\u{43D}\u{43E}\u{432}\u{43D}\u{44B}\u{445} \u{43D}\u{430}\u{43B}\u{43E}\u{433}\u{43E}\u{432} \u{432} \u{418}\u{442}\u{430}\u{43B}\u{438}\u{438}. \u{41E}\u{43D} \u{43D}\u{435} \u{438}\u{434}\u{435}\u{430}\u{43B}\u{435}\u{43D}, \u{43D}\u{43E} \u{443}\u{436}\u{435} \u{43F}\u{43E}\u{440}\u{430} \u{432}\u{44B}\u{43F}\u{443}\u{441}\u{442}\u{438}\u{442}\u{44C} \u{438} \u{434}\u{432}\u{438}\u{43D}\u{443}\u{442}\u{44C}\u{441}\u{44F} \u{434}\u{430}\u{43B}\u{44C}\u{448}\u{435}.\n\n\u{412} \u{43F}\u{43B}\u{430}\u{43D}\u{430}\u{445} \u{441}\u{434}\u{435}\u{43B}\u{430}\u{442}\u{44C} \u{435}\u{449}\u{435} \u{43D}\u{435}\u{441}\u{43A}\u{43E}\u{43B}\u{44C}\u{43A}\u{43E} \u{434}\u{435}\u{442}\u{430}\u{43B}\u{44C}\u{43D}\u{44B}\u{445} \u{433}\u{430}\u{439}\u{434}\u{43E}\u{432}. \u{411}\u{43E}\u{43B}\u{435}\u{435} \u{43F}\u{440}\u{430}\u{43A}\u{442}\u{438}\u{447}\u{43D}\u{44B}\u{445} \u{438} \u{441}\u{43F}\u{435}\u{446}\u{438}\u{430}\u{43B}\u{438}\u{437}\u{438}\u{440}\u{43E}\u{432}\u{430}\u{43D}\u{43D}\u{44B}\u{445}. \u{411}\u{43B}\u{430}\u{433}\u{43E} \u{443} \u{43D}\u{430}\u{441} \u{43F}\u{43E}\u{44F}\u{432}\u{438}\u{43B}\u{441}\u{44F} \u{447}\u{435}\u{43B}\u{43E}\u{432}\u{435}\u{43A}, \u{43A}\u{43E}\u{442}\u{43E}\u{440}\u{44B}\u{439} \u{430}\u{43A}\u{442}\u{438}\u{432}\u{43D}\u{43E} \u{437}\u{430}\u{43D}\u{438}\u{43C}\u{430}\u{435}\u{442}\u{441}\u{44F} \u{44D}\u{442}\u{438}\u{43C}.\n\n   **[\u{413}\u{430}\u{439}\u{434} \u{43F}\u{43E} \u{43D}\u{430}\u{43B}\u{43E}\u{433}\u{430}\u{43C}**](https://rutoitaly.ru/wiki/Imposte_e_tasse)\n\n\u{413}\u{430}\u{439}\u{434} \u{43D}\u{430}\u{43F}\u{438}\u{441}\u{430}\u{43B} \u{441}\u{43E}\u{432}\u{43C}\u{435}\u{441}\u{442}\u{43D}\u{43E} \u{441} \u{43D}\u{430}\u{43C}\u{438} [\u{410}\u{43B}\u{435}\u{43A}\u{441}\u{430}\u{43D}\u{434}\u{440}.](https://t.me/alx4039) \u{415}\u{441}\u{43B}\u{438} \u{443} \u{432}\u{430}\u{441} \u{435}\u{441}\u{442}\u{44C} \u{432}\u{43E}\u{43F}\u{440}\u{43E}\u{441}\u{44B} \u{438}\u{43B}\u{438} \u{436}\u{435}\u{43B}\u{430}\u{43D}\u{438}\u{435} \u{447}\u{442}\u{43E}-\u{442}\u{43E} \u{434}\u{43E}\u{431}\u{430}\u{432}\u{438}\u{442}\u{44C}, \u{441}\u{43E}\u{442}\u{440}\u{443}\u{434}\u{43D}\u{438}\u{447}\u{430}\u{442}\u{44C} \u{432} \u{44D}\u{442}\u{43E}\u{439} \u{43E}\u{431}\u{43B}\u{430}\u{441}\u{442}\u{438} \u{43D}\u{430}\u{43F}\u{438}\u{448}\u{438}\u{442}\u{435} \u{435}\u{43C}\u{443}.\n\n<i>\u{416}\u{434}\u{451}\u{43C} \u{432}\u{430}\u{448}\u{438}\u{445} \u{43F}\u{440}\u{435}\u{434}\u{43B}\u{43E}\u{436}\u{435}\u{43D}\u{438}\u{439} \u{438} \u{437}\u{430}\u{43C}\u{435}\u{447}\u{430}\u{43D}\u{438}\u{439}, \u{43D}\u{430}\u{448}\u{430} \u{446}\u{435}\u{43B}\u{44C} \u{441}\u{43E}\u{441}\u{442}\u{430}\u{432}\u{438}\u{442}\u{44C} \u{441}\u{430}\u{43C}\u{44B}\u{439} \u{43F}\u{43E}\u{43D}\u{44F}\u{442}\u{43D}\u{44B}\u{439} \u{438} \u{434}\u{435}\u{442}\u{430}\u{43B}\u{44C}\u{43D}\u{44B}\u{439} \u{433}\u{430}\u{439}\u{434} \u{43F}\u{43E} \u{43D}\u{430}\u{43B}\u{43E}\u{433}\u{430}\u{43C}.\n\n</i>   <i>[\u{41E}\u{431}\u{441}\u{443}\u{434}\u{438}\u{442}\u{44C} \u{43C}\u{43E}\u{436}\u{43D}\u{43E} \u{432} \u{447}\u{430}\u{442}\u{435}</i>](https://t.me/rutoitalychat/13295/22683)";
        assert_eq!(render(text, &spans), expected);
    }
    {
        let text = "\u{418}\u{437}\u{43E}\u{431}\u{440}\u{430}\u{436}\u{435}\u{43D}\u{438}\u{435} \u{438}\u{437} \u{43F}\u{44F}\u{442}\u{438}\u{434}\u{435}\u{441}\u{44F}\u{442}\u{438} \u{43B}\u{438}\u{43D}\u{438}\u{439}.\n\u{41D}\u{430}\u{442}\u{43A}\u{43D}\u{443}\u{43B}\u{441}\u{44F} \u{43D}\u{430} \u{441}\u{43A}\u{440}\u{438}\u{43F}\u{442}, \u{43A}\u{43E}\u{442}\u{43E}\u{440}\u{44B}\u{439} \u{433}\u{435}\u{43D}\u{435}\u{440}\u{438}\u{440}\u{443}\u{435}\u{442} \u{442}\u{430}\u{43A}\u{438}\u{435} \u{438}\u{437}\u{43E}\u{431}\u{440}\u{430}\u{436}\u{435}\u{43D}\u{438}\u{44F} \u{432}\u{43E}\u{442} \u{442}\u{443}\u{442}.\n\u{41B}\u{43E}\u{436}\u{438}\u{442}\u{435} \u{440}\u{44F}\u{434}\u{43E}\u{43C} \u{441}\u{43E} \u{441}\u{43A}\u{440}\u{438}\u{43F}\u{442}\u{43E}\u{43C} png \u{438}\u{437}\u{43E}\u{431}\u{440}\u{430}\u{436}\u{435}\u{43D}\u{438}\u{435} 750\u{445}750 \u{432} \u{433}\u{440}\u{430}\u{434}\u{430}\u{446}\u{438}\u{44F}\u{445} \u{441}\u{435}\u{440}\u{43E}\u{433}\u{43E}, \u{432} \u{438}\u{441}\u{445}\u{43E}\u{434}\u{43D}\u{438}\u{43A}\u{435} \u{43C}\u{435}\u{43D}\u{44F}\u{435}\u{442}\u{435} \u{438}\u{43C}\u{44F} \u{444}\u{430}\u{439}\u{43B}\u{430} \u{43D}\u{430} \u{432}\u{430}\u{448}\u{435} \u{438} \u{437}\u{430}\u{43F}\u{443}\u{441}\u{43A}\u{430}\u{435}\u{442}\u{435} \u{438}\u{441}\u{445}\u{43E}\u{434}\u{43D}\u{438}\u{43A} \u{441} \u{43F}\u{43E}\u{43C}\u{43E}\u{449}\u{44C}\u{44E} processing. \u{421}\u{433}\u{435}\u{43D}\u{435}\u{440}\u{438}\u{440}\u{43E}\u{432}\u{430}\u{43D}\u{43D}\u{43E}\u{435} \u{438}\u{437}\u{43E}\u{431}\u{440}\u{430}\u{436}\u{435}\u{43D}\u{438}\u{435} \u{431}\u{443}\u{434}\u{435}\u{442} \u{43B}\u{435}\u{436}\u{430}\u{442}\u{44C} \u{432} \u{442}\u{43E}\u{43C} \u{436}\u{435} \u{43A}\u{430}\u{442}\u{430}\u{43B}\u{43E}\u{433}\u{435}.";
        let spans: Vec<TextSpan> = vec![
            TextSpan { offset: 91, length: 7, style: StyleKind::TextLink { url: String::from("https://gist.github.com/u-ndefine/8e4bc21be4275f87fefe7b2a68487161") } },
            TextSpan { offset: 239, length: 10, style: StyleKind::TextLink { url: String::from("https://processing.org/download/") } },
        ];
        let expected = "\u{418}\u{437}\u{43E}\u{431}\u{440}\u{430}\u{436}\u{435}\u{43D}\u{438}\u{435} \u{438}\u{437} \u{43F}\u{44F}\u{442}\u{438}\u{434}\u{435}\u{441}\u{44F}\u{442}\u{438} \u{43B}\u{438}\u{43D}\u{438}\u{439}.\n\u{41D}\u{430}\u{442}\u{43A}\u{43D}\u{443}\u{43B}\u{441}\u{44F} \u{43D}\u{430} \u{441}\u{43A}\u{440}\u{438}\u{43F}\u{442}, \u{43A}\u{43E}\u{442}\u{43E}\u{440}\u{44B}\u{439} \u{433}\u{435}\u{43D}\u{435}\u{440}\u{438}\u{440}\u{443}\u{435}\u{442} \u{442}\u{430}\u{43A}\u{438}\u{435} \u{438}\u{437}\u{43E}\u{431}\u{440}\u{430}\u{436}\u{435}\u{43D}\u{438}\u{44F} [\u{432}\u{43E}\u{442} \u{442}\u{443}\u{442}](https://gist.github.com/u-ndefine/8e4bc21be4275f87fefe7b2a68487161).\n\u{41B}\u{43E}\u{436}\u{438}\u{442}\u{435} \u{440}\u{44F}\u{434}\u{43E}\u{43C} \u{441}\u{43E} \u{441}\u{43A}\u{440}\u{438}\u{43F}\u{442}\u{43E}\u{43C} png \u{438}\u{437}\u{43E}\u{431}\u{440}\u{430}\u{436}\u{435}\u{43D}\u{438}\u{435} 750\u{445}750 \u{432} \u{433}\u{440}\u{430}\u{434}\u{430}\u{446}\u{438}\u{44F}\u{445} \u{441}\u{435}\u{440}\u{43E}\u{433}\u{43E}, \u{432} \u{438}\u{441}\u{445}\u{43E}\u{434}\u{43D}\u{438}\u{43A}\u{435} \u{43C}\u{435}\u{43D}\u{44F}\u{435}\u{442}\u{435} \u{438}\u{43C}\u{44F} \u{444}\u{430}\u{439}\u{43B}\u{430} \u{43D}\u{430} \u{432}\u{430}\u{448}\u{435} \u{438} \u{437}\u{430}\u{43F}\u{443}\u{441}\u{43A}\u{430}\u{435}\u{442}\u{435} \u{438}\u{441}\u{445}\u{43E}\u{434}\u{43D}\u{438}\u{43A} \u{441} \u{43F}\u{43E}\u{43C}\u{43E}\u{449}\u{44C}\u{44E} [processing](https://processing.org/download/). \u{421}\u{433}\u{435}\u{43D}\u{435}\u{440}\u{438}\u{440}\u{43E}\u{432}\u{430}\u{43D}\u{43D}\u{43E}\u{435} \u{438}\u{437}\u{43E}\u{431}\u{440}\u{430}\u{436}\u{435}\u{43D}\u{438}\u{435} \u{431}\u{443}\u{434}\u{435}\u{442} \u{43B}\u{435}\u{436}\u{430}\u{442}\u{44C} \u{432} \u{442}\u{43E}\u{43C} \u{436}\u{435} \u{43A}\u{430}\u{442}\u{430}\u{43B}\u{43E}\u{433}\u{435}.";
        assert_eq!(render(text, &spans), expected);
    }
    {
        let text = "\u{41D}\u{430}\u{43F}\u{43E}\u{43C}\u{438}\u{43D}\u{430}\u{435}\u{43C}, \u{447}\u{442}\u{43E} \u{437}\u{434}\u{435}\u{441}\u{44C} \u{443} \u{43D}\u{430}\u{441} \u{435}\u{441}\u{442}\u{44C} \u{435}\u{449}\u{451} \u{438} \u{441}\u{432}\u{43E}\u{439} \u{447}\u{430}\u{442}, \u{433}\u{434}\u{435} \u{43F}\u{440}\u{43E}\u{445}\u{43E}\u{434}\u{44F}\u{442} \u{AB}\u{43F}\u{443}\u{431}\u{43B}\u{438}\u{447}\u{43D}\u{44B}\u{435}\u{BB} \u{438}\u{43D}\u{442}\u{435}\u{440}\u{432}\u{44C}\u{44E}, \u{430} \u{432} \u{441}\u{432}\u{43E}\u{431}\u{43E}\u{434}\u{43D}\u{43E}\u{435} \u{432}\u{440}\u{435}\u{43C}\u{44F} \u{43C}\u{43E}\u{436}\u{43D}\u{43E} \u{43F}\u{440}\u{43E}\u{441}\u{442}\u{43E} \u{43F}\u{43E}\u{442}\u{440}\u{435}\u{449}\u{430}\u{442}\u{44C} \u{437}\u{430} \u{436}\u{438}\u{437}\u{43D}\u{44C}\n\n\u{417}\u{430}\u{445}\u{43E}\u{434}\u{438}, \u{442}\u{435}\u{431}\u{435} \u{437}\u{434}\u{435}\u{441}\u{44C} \u{440}\u{430}\u{434}\u{44B})\n\nhttps://t.me/joinchat/IqlQqUGyZpI1-0Zu8ChAmA";
        let spans: Vec<TextSpan> = vec![
        ];
        let expected = "\u{41D}\u{430}\u{43F}\u{43E}\u{43C}\u{438}\u{43D}\u{430}\u{435}\u{43C}, \u{447}\u{442}\u{43E} \u{437}\u{434}\u{435}\u{441}\u{44C} \u{443} \u{43D}\u{430}\u{441} \u{435}\u{441}\u{442}\u{44C} \u{435}\u{449}\u{451} \u{438} \u{441}\u{432}\u{43E}\u{439} \u{447}\u{430}\u{442}, \u{433}\u{434}\u{435} \u{43F}\u{440}\u{43E}\u{445}\u{43E}\u{434}\u{44F}\u{442} \u{AB}\u{43F}\u{443}\u{431}\u{43B}\u{438}\u{447}\u{43D}\u{44B}\u{435}\u{BB} \u{438}\u{43D}\u{442}\u{435}\u{440}\u{432}\u{44C}\u{44E}, \u{430} \u{432} \u{441}\u{432}\u{43E}\u{431}\u{43E}\u{434}\u{43D}\u{43E}\u{435} \u{432}\u{440}\u{435}\u{43C}\u{44F} \u{43C}\u{43E}\u{436}\u{43D}\u{43E} \u{43F}\u{440}\u{43E}\u{441}\u{442}\u{43E} \u{43F}\u{43E}\u{442}\u{440}\u{435}\u{449}\u{430}\u{442}\u{44C} \u{437}\u{430} \u{436}\u{438}\u{437}\u{43D}\u{44C}\n\n\u{417}\u{430}\u{445}\u{43E}\u{434}\u{438}, \u{442}\u{435}\u{431}\u{435} \u{437}\u{434}\u{435}\u{441}\u{44C} \u{440}\u{430}\u{434}\u{44B})\n\nhttps://t.me/joinchat/IqlQqUGyZpI1-0Zu8ChAmA";
        assert_eq!(render(text, &spans), expected);
    }
}

#[test]
fn render_no_spans_returns_input_verbatim() {
    let spans: Vec<TextSpan> = vec![];
    assert_eq!(render("Hello world", &spans), "Hello world");
    // even text outside the basic plane comes back untouched
    assert_eq!(render("a \u{1F4B8} b", &spans), "a \u{1F4B8} b");
    assert_eq!(render("", &spans), "");
}

#[test]
fn render_single_bold_span() {
    let spans = vec![span(0, 5, StyleKind::Bold)];
    assert_eq!(render("Hello world", &spans), "**Hello** world");
}

#[test]
fn render_bold_and_text_link() {
    let spans = vec![span(0, 5, StyleKind::Bold), link_span(6, 5, "https://x")];
    assert_eq!(render("Hello world", &spans), "**Hello** [world](https://x)");
}

#[test]
fn render_unsupported_spans_are_no_ops() {
    let with_emoji = vec![span(0, 5, StyleKind::Bold), span(6, 2, StyleKind::CustomEmoji)];
    let with_spoiler = vec![span(6, 2, StyleKind::Spoiler), span(0, 5, StyleKind::Bold)];
    let without = vec![span(0, 5, StyleKind::Bold)];
    assert_eq!(render("Hello world", &with_emoji), render("Hello world", &without));
    assert_eq!(render("Hello world", &with_spoiler), render("Hello world", &without));
    // a lone unsupported span leaves the text verbatim
    let only = vec![span(0, 2, StyleKind::Mention)];
    assert_eq!(render("Hi \u{1F4B8}", &only), "Hi \u{1F4B8}");
}

#[test]
fn render_each_tag_of_the_table() {
    let t = "abcdef";
    let check = |style: StyleKind, expected: &str| {
        assert_eq!(render(t, &vec![span(1, 2, style)]), expected);
    };
    check(StyleKind::Italic, "a<i>bc</i>def");
    check(StyleKind::Underline, "a<u>bc</u>def");
    check(StyleKind::Strikethrough, "a~~bc~~def");
    check(StyleKind::Code, "a`bc`def");
    check(StyleKind::Preformatted, "a```\nbc\n```def");
    check(StyleKind::PreformattedCode, "a<pre><code>bc</code></pre>def");
    check(StyleKind::Hashtag, "a#bcdef");
    check(StyleKind::PhoneNumber, "a<phone>bc</phone>def");
    check(StyleKind::PlainUrl, "a<a>bc</a>def");
}

#[test]
fn render_overlapping_spans_interleave() {
    let spans = vec![span(0, 4, StyleKind::Bold), span(2, 4, StyleKind::Italic)];
    assert_eq!(render("abcdef", &spans), "**ab<i>cd**ef</i>");
}

#[test]
fn render_coincident_events_emit_later_span_first() {
    // both spans cover [1, 4): the later-listed span's tags come first
    let spans = vec![span(1, 3, StyleKind::Bold), span(1, 3, StyleKind::Italic)];
    assert_eq!(render("abcdef", &spans), "a<i>**bcd</i>**ef");
}

#[test]
fn render_touching_spans_follow_registration_order() {
    let ab = vec![span(0, 3, StyleKind::Bold), span(3, 3, StyleKind::Italic)];
    assert_eq!(render("abcdef", &ab), "**abc<i>**def</i>");
    let ba = vec![span(3, 3, StyleKind::Italic), span(0, 3, StyleKind::Bold)];
    assert_eq!(render("abcdef", &ba), "**abc**<i>def</i>");
}

#[test]
fn render_zero_length_span_closes_before_opening() {
    let spans = vec![span(2, 0, StyleKind::Bold)];
    assert_eq!(render("abcd", &spans), "ab****cd");
}

#[test]
fn render_span_past_text_end_appends_tags() {
    let spans = vec![span(2, 10, StyleKind::Bold)];
    assert_eq!(render("abc", &spans), "ab**c**");
}

#[test]
fn render_replaces_surrogate_halves_with_spaces() {
    // the money-with-wings emoji takes two UTF-16 units
    let spans = vec![span(0, 2, StyleKind::Bold)];
    assert_eq!(render("\u{1F4B8}x", &spans), "**  **x");
}

#[test]
fn render_is_deterministic() {
    let spans = vec![span(0, 5, StyleKind::Bold), link_span(6, 5, "https://x")];
    let first = render("Hello world", &spans);
    let second = render("Hello world", &spans);
    assert_eq!(first, second);
}

#[test]
fn render_disjoint_spans_ignore_list_order() {
    let ab = vec![span(0, 4, StyleKind::Bold), link_span(6, 5, "https://x")];
    let ba = vec![link_span(6, 5, "https://x"), span(0, 4, StyleKind::Bold)];
    let expected = "**Hell**o [world](https://x)";
    assert_eq!(render("Hello world", &ab), expected);
    assert_eq!(render("Hello world", &ba), expected);
}
